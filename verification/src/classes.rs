//! Character classes the canonicalizer folds: each class maps many code
//! points to one canonical representative.
use vstd::prelude::*;

verus! {

/// Ampersand and its visual variants (small ampersand, full-width ampersand).
pub open spec fn is_ampersand(c: char) -> bool {
    c == '&' || c == '\u{FE60}' || c == '\u{FF06}'
}

pub fn check_ampersand(c: char) -> (b: bool)
    ensures
        b == is_ampersand(c),
{
    c == '&' || c == '\u{FE60}' || c == '\u{FF06}'
}

/// Specialized whitespace: line/paragraph separators, zero-width space,
/// zero-width no-break space, no-break space, ideographic space, carriage
/// return, line feed, tab.
pub open spec fn is_special_whitespace(c: char) -> bool {
    c == '\u{2028}' || c == '\u{2029}' || c == '\u{200B}' || c == '\u{FEFF}' || c == '\u{00A0}'
        || c == '\u{3000}' || c == '\r' || c == '\n' || c == '\t'
}

pub fn check_special_whitespace(c: char) -> (b: bool)
    ensures
        b == is_special_whitespace(c),
{
    c == '\u{2028}' || c == '\u{2029}' || c == '\u{200B}' || c == '\u{FEFF}' || c == '\u{00A0}'
        || c == '\u{3000}' || c == '\r' || c == '\n' || c == '\t'
}

/// Generic whitespace: the code points with the Unicode White_Space property.
pub open spec fn is_whitespace(c: char) -> bool {
    (0x09 <= c as u32 && c as u32 <= 0x0D) || c == ' ' || c == '\u{85}' || c == '\u{A0}'
        || c == '\u{1680}' || (0x2000 <= c as u32 && c as u32 <= 0x200A) || c == '\u{2028}'
        || c == '\u{2029}' || c == '\u{202F}' || c == '\u{205F}' || c == '\u{3000}'
}

pub fn check_whitespace(c: char) -> (b: bool)
    ensures
        b == is_whitespace(c),
{
    let n = c as u32;
    (0x09 <= n && n <= 0x0D) || c == ' ' || c == '\u{85}' || c == '\u{A0}' || c == '\u{1680}'
        || (0x2000 <= n && n <= 0x200A) || c == '\u{2028}' || c == '\u{2029}' || c == '\u{202F}'
        || c == '\u{205F}' || c == '\u{3000}'
}

/// ASCII whitespace: space, tab, line feed, form feed, carriage return.
pub open spec fn is_ascii_whitespace(c: char) -> bool {
    c == ' ' || c == '\t' || c == '\n' || c == '\u{0C}' || c == '\r'
}

pub fn check_ascii_whitespace(c: char) -> (b: bool)
    ensures
        b == is_ascii_whitespace(c),
{
    c == ' ' || c == '\t' || c == '\n' || c == '\u{0C}' || c == '\r'
}

/// Dash-like code points: hyphen variants, en/em dashes, wave dashes, and
/// their vertical and small forms.
pub open spec fn is_dash_like(c: char) -> bool {
    c == '\u{058A}' || c == '\u{05BE}' || c == '\u{1400}' || c == '\u{1806}' || c == '\u{2010}'
        || c == '\u{2011}' || c == '\u{2012}' || c == '\u{2013}' || c == '\u{2014}'
        || c == '\u{2015}' || c == '\u{2E17}' || c == '\u{2E1A}' || c == '\u{2E3A}'
        || c == '\u{2E3B}' || c == '\u{2E40}' || c == '\u{2E5D}' || c == '\u{301C}'
        || c == '\u{3030}' || c == '\u{30A0}' || c == '\u{FE31}' || c == '\u{FE32}'
        || c == '\u{FE58}' || c == '\u{FE63}' || c == '\u{FF0D}'
}

pub fn check_dash_like(c: char) -> (b: bool)
    ensures
        b == is_dash_like(c),
{
    c == '\u{058A}' || c == '\u{05BE}' || c == '\u{1400}' || c == '\u{1806}' || c == '\u{2010}'
        || c == '\u{2011}' || c == '\u{2012}' || c == '\u{2013}' || c == '\u{2014}'
        || c == '\u{2015}' || c == '\u{2E17}' || c == '\u{2E1A}' || c == '\u{2E3A}'
        || c == '\u{2E3B}' || c == '\u{2E40}' || c == '\u{2E5D}' || c == '\u{301C}'
        || c == '\u{3030}' || c == '\u{30A0}' || c == '\u{FE31}' || c == '\u{FE32}'
        || c == '\u{FE58}' || c == '\u{FE63}' || c == '\u{FF0D}'
}

/// Quote-like code points: ASCII double quote, single/double curly quotes,
/// guillemets, CJK angle and corner brackets.
pub open spec fn is_quote_like(c: char) -> bool {
    c == '"' || c == '\u{2018}' || c == '\u{2019}' || c == '\u{201C}' || c == '\u{201D}'
        || c == '\u{AB}' || c == '\u{BB}' || c == '\u{2039}' || c == '\u{203A}' || c == '\u{3008}'
        || c == '\u{3009}' || c == '\u{300A}' || c == '\u{300B}' || c == '\u{300C}'
        || c == '\u{300D}'
}

pub fn check_quote_like(c: char) -> (b: bool)
    ensures
        b == is_quote_like(c),
{
    c == '"' || c == '\u{2018}' || c == '\u{2019}' || c == '\u{201C}' || c == '\u{201D}'
        || c == '\u{AB}' || c == '\u{BB}' || c == '\u{2039}' || c == '\u{203A}' || c == '\u{3008}'
        || c == '\u{3009}' || c == '\u{300A}' || c == '\u{300B}' || c == '\u{300C}'
        || c == '\u{300D}'
}

/// ASCII punctuation, as in `char::is_ascii_punctuation`.
pub open spec fn is_ascii_punct(c: char) -> bool {
    (0x21 <= c as u32 && c as u32 <= 0x2F) || (0x3A <= c as u32 && c as u32 <= 0x40) || (0x5B
        <= c as u32 && c as u32 <= 0x60) || (0x7B <= c as u32 && c as u32 <= 0x7E)
}

pub fn check_ascii_punct(c: char) -> (b: bool)
    ensures
        b == is_ascii_punct(c),
{
    let n = c as u32;
    (0x21 <= n && n <= 0x2F) || (0x3A <= n && n <= 0x40) || (0x5B <= n && n <= 0x60) || (0x7B <= n
        && n <= 0x7E)
}

} // verus!

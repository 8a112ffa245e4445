//! The canonicalizer: the ordered pipeline of normalization passes, and the
//! substitution tables it consumes.
use vstd::prelude::*;

use vstd::utf8::encode_utf8;

use crate::encode::utf8_encode;
use crate::normalize::nfkc;
use crate::normalize::nfkc_of;
use crate::passes::apply_punct_ws;
use crate::passes::chars_folded;
use crate::passes::collapse_long_dots;
use crate::passes::collapse_multi_whitespace;
use crate::passes::collapse_runs;
use crate::passes::fold_chars;
use crate::passes::long_dots_collapsed;
use crate::passes::multi_ws_collapsed;
use crate::passes::punct_ws_applied;
use crate::passes::runs_collapsed;
use crate::passes::trim;
use crate::passes::trimmed;
use crate::passes::CharFold;
use crate::passes::RunClass;
use crate::replace::apply_table;
use crate::replace::pairs_view;
use crate::replace::replaced;
use crate::replace::table_applied;

verus! {

/// The three ordered substitution tables the pipeline consumes. Each entry
/// is a (pattern, replacement) pair applied as a literal substring
/// replacement, in table order.
pub struct Tables {
    pub cjk_punct_pairs: Vec<(Vec<char>, Vec<char>)>,
    pub autocorrect_pairs: Vec<(Vec<char>, Vec<char>)>,
    pub ascii_emoji_pairs: Vec<(Vec<char>, Vec<char>)>,
}

/// The mathematical content of a set of tables.
pub struct TablesView {
    pub cjk_punct_pairs: Seq<(Seq<char>, Seq<char>)>,
    pub autocorrect_pairs: Seq<(Seq<char>, Seq<char>)>,
    pub ascii_emoji_pairs: Seq<(Seq<char>, Seq<char>)>,
}

impl View for Tables {
    type V = TablesView;

    open spec fn view(&self) -> TablesView {
        TablesView {
            cjk_punct_pairs: pairs_view(self.cjk_punct_pairs@),
            autocorrect_pairs: pairs_view(self.autocorrect_pairs@),
            ascii_emoji_pairs: pairs_view(self.ascii_emoji_pairs@),
        }
    }
}

impl Tables {
    /// Tables with no entries: the character-class folds still apply, the
    /// three table passes replace nothing.
    pub fn new() -> (t: Tables)
        ensures
            t@.cjk_punct_pairs.len() == 0,
            t@.autocorrect_pairs.len() == 0,
            t@.ascii_emoji_pairs.len() == 0,
    {
        Tables {
            cjk_punct_pairs: Vec::new(),
            autocorrect_pairs: Vec::new(),
            ascii_emoji_pairs: Vec::new(),
        }
    }
}

/// The canonical character sequence of a text already in NFKC form: the
/// ordered passes after compatibility normalization.
pub open spec fn transformed(s: Seq<char>, t: TablesView) -> Seq<char> {
    let amps = chars_folded(CharFold::Ampersand, s);
    let spaced = runs_collapsed(RunClass::SpecialWhitespace, amps, false);
    let stripped = trimmed(spaced);
    let singled = multi_ws_collapsed(stripped, false);
    let dashed = runs_collapsed(RunClass::Dash, singled, false);
    let hyphened = runs_collapsed(RunClass::Hyphen, dashed, false);
    let paired = table_applied(hyphened, t.cjk_punct_pairs);
    let narrowed = chars_folded(CharFold::FullWidth, paired);
    let dotted = chars_folded(CharFold::Ellipsis, narrowed);
    let shortened = long_dots_collapsed(dotted, 0);
    let slashed = chars_folded(CharFold::FractionSlash, shortened);
    let quoted = chars_folded(CharFold::Quote, slashed);
    let tightened = punct_ws_applied(quoted, false, false);
    let corrected = table_applied(tightened, t.autocorrect_pairs);
    table_applied(corrected, t.ascii_emoji_pairs)
}

/// The canonical bytes of a text: the UTF-8 encoding of the transformed
/// NFKC form.
pub open spec fn canonical(s: Seq<char>, t: TablesView) -> Seq<u8> {
    encode_utf8(transformed(nfkc_of(s), t))
}

/// Runs the ordered passes over a text already in NFKC form.
pub fn transform_normalized(s: &Vec<char>, tables: &Tables) -> (r: Vec<char>)
    ensures
        r@ == transformed(s@, tables@),
{
    let amps = fold_chars(s, CharFold::Ampersand);
    let spaced = collapse_runs(&amps, RunClass::SpecialWhitespace);
    let stripped = trim(&spaced);
    let singled = collapse_multi_whitespace(&stripped);
    let dashed = collapse_runs(&singled, RunClass::Dash);
    let hyphened = collapse_runs(&dashed, RunClass::Hyphen);
    let paired = apply_table(hyphened, &tables.cjk_punct_pairs);
    let narrowed = fold_chars(&paired, CharFold::FullWidth);
    let dotted = fold_chars(&narrowed, CharFold::Ellipsis);
    let shortened = collapse_long_dots(&dotted);
    let slashed = fold_chars(&shortened, CharFold::FractionSlash);
    let quoted = fold_chars(&slashed, CharFold::Quote);
    let tightened = apply_punct_ws(&quoted);
    let corrected = apply_table(tightened, &tables.autocorrect_pairs);
    apply_table(corrected, &tables.ascii_emoji_pairs)
}

/// Canonicalizes a text into its deterministic byte form: texts that differ
/// only in the superficial representations the passes fold yield the same
/// bytes.
pub fn canonicalize(text: &str, tables: &Tables) -> (r: Vec<u8>)
    ensures
        r@ == canonical(text@, tables@),
{
    let norm = nfkc(text);
    let folded = transform_normalized(&norm, tables);
    utf8_encode(&folded)
}

/// Canonicalization is deterministic: equal texts under equal tables yield
/// byte-identical output.
pub proof fn lemma_canonical_deterministic(s1: Seq<char>, s2: Seq<char>, t1: TablesView, t2: TablesView)
    requires
        s1 == s2,
        t1 == t2,
    ensures
        canonical(s1, t1) == canonical(s2, t2),
{
}

/// The canonical bytes are valid UTF-8 and decode to exactly the transformed
/// text: a caller that decodes canonical output and canonicalizes it again
/// re-runs the passes on the passes' own output.
pub proof fn lemma_canonical_decodes(s: Seq<char>, t: TablesView)
    ensures
        vstd::utf8::valid_utf8(canonical(s, t)),
        vstd::utf8::decode_utf8(canonical(s, t)) == transformed(nfkc_of(s), t),
{
    vstd::utf8::encode_utf8_valid_utf8(transformed(nfkc_of(s), t));
    vstd::utf8::encode_utf8_decode_utf8(transformed(nfkc_of(s), t));
}

/// Table entries apply in declared order: a two-entry table is the second
/// entry's replacement applied to the result of the first entry's, so where
/// two entries could both match overlapping text, the earlier entry wins.
pub proof fn lemma_table_order(s: Seq<char>, e1: (Seq<char>, Seq<char>), e2: (Seq<char>, Seq<char>))
    ensures
        table_applied(s, seq![e1, e2]) == replaced(replaced(s, e1.0, e1.1), e2.0, e2.1),
{
    let t = seq![e1, e2];
    let r1 = replaced(s, e1.0, e1.1);
    let r2 = replaced(r1, e2.0, e2.1);
    let rest: Seq<(Seq<char>, Seq<char>)> = Seq::empty();
    assert(t[0] == e1);
    assert(t.skip(1) =~= seq![e2]);
    assert(table_applied(s, t) == table_applied(r1, seq![e2]));
    assert(seq![e2][0] == e2);
    assert(seq![e2].skip(1) =~= rest);
    assert(table_applied(r1, seq![e2]) == table_applied(r2, rest));
    assert(table_applied(r2, rest) == r2);
}

} // verus!

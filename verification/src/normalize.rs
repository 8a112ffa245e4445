//! Unicode compatibility normalization, performed by the
//! unicode_normalization crate.
use vstd::prelude::*;

verus! {

/// The NFKC normal form of a character sequence. The form is defined by the
/// Unicode standard and depends on the characters alone; it is not restated
/// here.
pub uninterp spec fn nfkc_of(s: Seq<char>) -> Seq<char>;

/// Relies on unicode_normalization's `nfkc` on `&str`: the iterator yields
/// the NFKC normal form of the text, a function of the characters alone, and
/// yields nothing when the text is empty.
#[verifier::external_body]
pub(crate) fn nfkc(s: &str) -> (r: Vec<char>)
    ensures
        r@ == nfkc_of(s@),
        s@.len() == 0 ==> r@.len() == 0,
{
    unicode_normalization::UnicodeNormalization::nfkc(s).collect()
}

} // verus!

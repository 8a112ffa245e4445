//! The individual normalization passes. Each pass has a spec function that
//! defines its result and an executable function proved against it.
use vstd::prelude::*;

use crate::classes::check_ampersand;
use crate::classes::check_ascii_punct;
use crate::classes::check_ascii_whitespace;
use crate::classes::check_dash_like;
use crate::classes::check_quote_like;
use crate::classes::check_special_whitespace;
use crate::classes::check_whitespace;
use crate::classes::is_ampersand;
use crate::classes::is_ascii_punct;
use crate::classes::is_ascii_whitespace;
use crate::classes::is_dash_like;
use crate::classes::is_quote_like;
use crate::classes::is_special_whitespace;
use crate::classes::is_whitespace;

verus! {

/// The per-character folds: each rewrites single characters independently.
#[derive(Clone, Copy)]
pub enum CharFold {
    /// `&` and variants become ` and `.
    Ampersand,
    /// Full-width forms of `!` through `~` become their ASCII equivalents.
    FullWidth,
    /// The horizontal ellipsis character becomes three dots.
    Ellipsis,
    /// The fraction slash becomes an ASCII slash.
    FractionSlash,
    /// Quote-like characters become an ASCII apostrophe.
    Quote,
}

/// What one character becomes under the given fold.
pub open spec fn fold_char(k: CharFold, c: char) -> Seq<char> {
    match k {
        CharFold::Ampersand => if is_ampersand(c) {
            seq![' ', 'a', 'n', 'd', ' ']
        } else {
            seq![c]
        },
        CharFold::FullWidth => if 0xFF01 <= c as u32 && c as u32 <= 0xFF5E {
            seq![((c as u32 - 0xFEE0) as u8) as char]
        } else {
            seq![c]
        },
        CharFold::Ellipsis => if c == '\u{2026}' {
            seq!['.', '.', '.']
        } else {
            seq![c]
        },
        CharFold::FractionSlash => if c == '\u{2044}' {
            seq!['/']
        } else {
            seq![c]
        },
        CharFold::Quote => if is_quote_like(c) {
            seq!['\'']
        } else {
            seq![c]
        },
    }
}

/// The given fold applied to every character of the sequence.
pub open spec fn chars_folded(k: CharFold, s: Seq<char>) -> Seq<char>
    decreases s.len(),
{
    if s.len() == 0 {
        Seq::empty()
    } else {
        fold_char(k, s[0]) + chars_folded(k, s.skip(1))
    }
}

pub fn fold_chars(s: &Vec<char>, k: CharFold) -> (r: Vec<char>)
    ensures
        r@ == chars_folded(k, s@),
{
    let mut out: Vec<char> = Vec::new();
    let mut i: usize = 0;
    proof {
        assert(s@.skip(0) =~= s@);
        assert(out@ + chars_folded(k, s@) =~= chars_folded(k, s@));
    }
    while i < s.len()
        invariant
            i <= s@.len(),
            chars_folded(k, s@) == out@ + chars_folded(k, s@.skip(i as int)),
        decreases s@.len() - i,
    {
        proof {
            assert(s@.skip(i as int)[0] == s@[i as int]);
            assert(s@.skip(i as int).skip(1) =~= s@.skip(i as int + 1));
        }
        let ghost out0 = out@;
        let c = s[i];
        match k {
            CharFold::Ampersand => {
                if check_ampersand(c) {
                    out.push(' ');
                    out.push('a');
                    out.push('n');
                    out.push('d');
                    out.push(' ');
                } else {
                    out.push(c);
                }
            },
            CharFold::FullWidth => {
                let n: u32 = c as u32;
                if 0xFF01 <= n && n <= 0xFF5E {
                    let b = (n - 0xFEE0) as u8;
                    out.push(b as char);
                } else {
                    out.push(c);
                }
            },
            CharFold::Ellipsis => {
                if c == '\u{2026}' {
                    out.push('.');
                    out.push('.');
                    out.push('.');
                } else {
                    out.push(c);
                }
            },
            CharFold::FractionSlash => {
                if c == '\u{2044}' {
                    out.push('/');
                } else {
                    out.push(c);
                }
            },
            CharFold::Quote => {
                if check_quote_like(c) {
                    out.push('\'');
                } else {
                    out.push(c);
                }
            },
        }
        proof {
            assert(out@ =~= out0 + fold_char(k, s@[i as int]));
            assert(out0 + chars_folded(k, s@.skip(i as int)) =~= out@ + chars_folded(
                k,
                s@.skip(i as int + 1),
            ));
        }
        i += 1;
    }
    proof {
        assert(s@.skip(s@.len() as int) =~= Seq::<char>::empty());
        assert(out@ + Seq::<char>::empty() =~= out@);
    }
    out
}

/// A sequence no character of which the fold rewrites.
pub open spec fn fold_fixed(k: CharFold, s: Seq<char>) -> bool {
    forall|p: int| 0 <= p < s.len() ==> fold_char(k, #[trigger] s[p]) == seq![s[p]]
}

/// No character a fold emits is itself rewritten by that fold.
proof fn lemma_fold_char_output_fixed(k: CharFold, c: char)
    ensures
        forall|q: int|
            0 <= q < fold_char(k, c).len() ==> fold_char(k, #[trigger] fold_char(k, c)[q])
                == seq![fold_char(k, c)[q]],
{
    let h = fold_char(k, c);
    match k {
        CharFold::Ampersand => {
            if is_ampersand(c) {
                assert(h =~= seq![' ', 'a', 'n', 'd', ' ']);
                assert(fold_char(k, ' ') == seq![' ']);
                assert(fold_char(k, 'a') == seq!['a']);
                assert(fold_char(k, 'n') == seq!['n']);
                assert(fold_char(k, 'd') == seq!['d']);
            }
        },
        CharFold::FullWidth => {
            if 0xFF01 <= c as u32 && c as u32 <= 0xFF5E {
                let d = ((c as u32 - 0xFEE0) as u8) as char;
                assert(h =~= seq![d]);
                assert(d as u32 == c as u32 - 0xFEE0);
                assert(fold_char(k, d) == seq![d]);
            }
        },
        CharFold::Ellipsis => {
            if c == '\u{2026}' {
                assert(h =~= seq!['.', '.', '.']);
                assert(fold_char(k, '.') == seq!['.']);
            }
        },
        CharFold::FractionSlash => {
            if c == '\u{2044}' {
                assert(h =~= seq!['/']);
                assert(fold_char(k, '/') == seq!['/']);
            }
        },
        CharFold::Quote => {
            if is_quote_like(c) {
                assert(h =~= seq!['\'']);
                assert(fold_char(k, '\'') == seq!['\'']);
            }
        },
    }
}

/// A fold's output consists of characters the fold no longer rewrites.
pub proof fn lemma_fold_output_fixed(k: CharFold, s: Seq<char>)
    ensures
        fold_fixed(k, chars_folded(k, s)),
    decreases s.len(),
{
    let o = chars_folded(k, s);
    if s.len() == 0 {
    } else {
        lemma_fold_output_fixed(k, s.skip(1));
        lemma_fold_char_output_fixed(k, s[0]);
        let h = fold_char(k, s[0]);
        let o1 = chars_folded(k, s.skip(1));
        assert(o == h + o1);
        assert forall|p: int| 0 <= p < o.len() implies fold_char(k, #[trigger] o[p])
            == seq![o[p]] by {
            if p < h.len() {
                assert(o[p] == h[p]);
            } else {
                assert(o[p] == o1[p - h.len()]);
            }
        }
    }
}

/// A fold leaves a sequence it no longer rewrites unchanged.
pub proof fn lemma_fold_fixed_point(k: CharFold, s: Seq<char>)
    requires
        fold_fixed(k, s),
    ensures
        chars_folded(k, s) == s,
    decreases s.len(),
{
    if s.len() == 0 {
        assert(chars_folded(k, s) =~= s);
    } else {
        assert(fold_char(k, s[0]) == seq![s[0]]);
        assert forall|p: int| 0 <= p < s.skip(1).len() implies fold_char(
            k,
            #[trigger] s.skip(1)[p],
        ) == seq![s.skip(1)[p]] by {
            assert(s.skip(1)[p] == s[p + 1]);
        }
        lemma_fold_fixed_point(k, s.skip(1));
        assert(seq![s[0]] + s.skip(1) =~= s);
    }
}

/// Every per-character fold is idempotent: folding already folded text
/// changes nothing.
pub proof fn lemma_fold_chars_idempotent(k: CharFold, s: Seq<char>)
    ensures
        chars_folded(k, chars_folded(k, s)) == chars_folded(k, s),
{
    lemma_fold_output_fixed(k, s);
    lemma_fold_fixed_point(k, chars_folded(k, s));
}

/// The character classes whose runs collapse to a single representative.
#[derive(Clone, Copy)]
pub enum RunClass {
    /// Specialized whitespace; a run becomes one ASCII space.
    SpecialWhitespace,
    /// Dash-like characters; a run becomes one ASCII hyphen.
    Dash,
    /// ASCII hyphens; a run becomes one hyphen.
    Hyphen,
}

/// Membership in a run class.
pub open spec fn in_run_class(k: RunClass, c: char) -> bool {
    match k {
        RunClass::SpecialWhitespace => is_special_whitespace(c),
        RunClass::Dash => is_dash_like(c),
        RunClass::Hyphen => c == '-',
    }
}

/// The replacement a run of the class collapses to.
pub open spec fn run_replacement(k: RunClass) -> char {
    match k {
        RunClass::SpecialWhitespace => ' ',
        RunClass::Dash => '-',
        RunClass::Hyphen => '-',
    }
}

/// Every maximal run of characters of the class replaced by the single
/// representative character; `prev_in` says whether the character just
/// before `s` belonged to the class.
pub open spec fn runs_collapsed(k: RunClass, s: Seq<char>, prev_in: bool) -> Seq<char>
    decreases s.len(),
{
    if s.len() == 0 {
        Seq::empty()
    } else if in_run_class(k, s[0]) {
        if prev_in {
            runs_collapsed(k, s.skip(1), true)
        } else {
            seq![run_replacement(k)] + runs_collapsed(k, s.skip(1), true)
        }
    } else {
        seq![s[0]] + runs_collapsed(k, s.skip(1), false)
    }
}

pub fn collapse_runs(s: &Vec<char>, k: RunClass) -> (r: Vec<char>)
    ensures
        r@ == runs_collapsed(k, s@, false),
{
    let mut out: Vec<char> = Vec::new();
    let mut i: usize = 0;
    let mut prev_in = false;
    proof {
        assert(s@.skip(0) =~= s@);
        assert(out@ + runs_collapsed(k, s@, false) =~= runs_collapsed(k, s@, false));
    }
    while i < s.len()
        invariant
            i <= s@.len(),
            runs_collapsed(k, s@, false) == out@ + runs_collapsed(k, s@.skip(i as int), prev_in),
        decreases s@.len() - i,
    {
        proof {
            assert(s@.skip(i as int)[0] == s@[i as int]);
            assert(s@.skip(i as int).skip(1) =~= s@.skip(i as int + 1));
        }
        let ghost out0 = out@;
        let ghost prev0 = prev_in;
        let c = s[i];
        let c_in = match k {
            RunClass::SpecialWhitespace => check_special_whitespace(c),
            RunClass::Dash => check_dash_like(c),
            RunClass::Hyphen => c == '-',
        };
        if c_in {
            if !prev_in {
                let rep = match k {
                    RunClass::SpecialWhitespace => ' ',
                    RunClass::Dash => '-',
                    RunClass::Hyphen => '-',
                };
                out.push(rep);
            }
            prev_in = true;
        } else {
            out.push(c);
            prev_in = false;
        }
        proof {
            assert(out0 + runs_collapsed(k, s@.skip(i as int), prev0) =~= out@ + runs_collapsed(
                k,
                s@.skip(i as int + 1),
                prev_in,
            ));
        }
        i += 1;
    }
    proof {
        assert(s@.skip(s@.len() as int) =~= Seq::<char>::empty());
        assert(out@ + Seq::<char>::empty() =~= out@);
    }
    out
}

/// Collapsed output shape: every character of the class equals the
/// representative and is not followed by another class character.
pub open spec fn runs_separated(k: RunClass, o: Seq<char>) -> bool {
    forall|p: int|
        0 <= p < o.len() && in_run_class(k, #[trigger] o[p]) ==> {
            &&& o[p] == run_replacement(k)
            &&& (p == o.len() - 1 || !in_run_class(k, o[p + 1]))
        }
}

/// The run collapse only produces separated output, and produces no class
/// character at the front when the character before the text was in the
/// class.
pub proof fn lemma_collapse_runs_separated(k: RunClass, s: Seq<char>, prev_in: bool)
    ensures
        runs_separated(k, runs_collapsed(k, s, prev_in)),
        prev_in ==> (runs_collapsed(k, s, prev_in).len() == 0 || !in_run_class(
            k,
            runs_collapsed(k, s, prev_in)[0],
        )),
    decreases s.len(),
{
    let o = runs_collapsed(k, s, prev_in);
    if s.len() == 0 {
    } else if in_run_class(k, s[0]) {
        lemma_collapse_runs_separated(k, s.skip(1), true);
        let o1 = runs_collapsed(k, s.skip(1), true);
        if !prev_in {
            assert(o == seq![run_replacement(k)] + o1);
            assert forall|p: int| 0 <= p < o.len() && in_run_class(k, #[trigger] o[p]) implies {
                &&& o[p] == run_replacement(k)
                &&& (p == o.len() - 1 || !in_run_class(k, o[p + 1]))
            } by {
                if p == 0 {
                    if o.len() > 1 {
                        assert(o[1] == o1[0]);
                    }
                } else {
                    assert(o[p] == o1[p - 1]);
                    if p < o.len() - 1 {
                        assert(o[p + 1] == o1[p]);
                    }
                }
            }
        }
    } else {
        lemma_collapse_runs_separated(k, s.skip(1), false);
        let o1 = runs_collapsed(k, s.skip(1), false);
        assert(o == seq![s[0]] + o1);
        assert forall|p: int| 0 <= p < o.len() && in_run_class(k, #[trigger] o[p]) implies {
            &&& o[p] == run_replacement(k)
            &&& (p == o.len() - 1 || !in_run_class(k, o[p + 1]))
        } by {
            if p > 0 {
                assert(o[p] == o1[p - 1]);
                if p < o.len() - 1 {
                    assert(o[p + 1] == o1[p]);
                }
            }
        }
    }
}

/// Separated text is a fixpoint of the run collapse, when the character
/// assumed before the text is not in the class wherever the text starts
/// with a class character.
pub proof fn lemma_collapse_runs_fixed(k: RunClass, o: Seq<char>, prev_in: bool)
    requires
        runs_separated(k, o),
        prev_in ==> (o.len() == 0 || !in_run_class(k, o[0])),
    ensures
        runs_collapsed(k, o, prev_in) == o,
    decreases o.len(),
{
    if o.len() == 0 {
        assert(runs_collapsed(k, o, prev_in) =~= o);
    } else {
        assert forall|p: int| 0 <= p < o.skip(1).len() && in_run_class(
            k,
            #[trigger] o.skip(1)[p],
        ) implies {
            &&& o.skip(1)[p] == run_replacement(k)
            &&& (p == o.skip(1).len() - 1 || !in_run_class(k, o.skip(1)[p + 1]))
        } by {
            assert(o.skip(1)[p] == o[p + 1]);
            if p < o.skip(1).len() - 1 {
                assert(o.skip(1)[p + 1] == o[p + 2]);
            }
        }
        if in_run_class(k, o[0]) {
            assert(o[0] == run_replacement(k));
            if o.len() > 1 {
                assert(o.skip(1)[0] == o[1]);
            }
            lemma_collapse_runs_fixed(k, o.skip(1), true);
            assert(seq![run_replacement(k)] + o.skip(1) =~= o);
        } else {
            lemma_collapse_runs_fixed(k, o.skip(1), false);
            assert(seq![o[0]] + o.skip(1) =~= o);
        }
    }
}

/// Collapsing runs is idempotent: collapsing already collapsed text changes
/// nothing.
pub proof fn lemma_collapse_runs_idempotent(k: RunClass, s: Seq<char>)
    ensures
        runs_collapsed(k, runs_collapsed(k, s, false), false) == runs_collapsed(k, s, false),
{
    lemma_collapse_runs_separated(k, s, false);
    lemma_collapse_runs_fixed(k, runs_collapsed(k, s, false), false);
}

/// The sequence with its leading ASCII whitespace removed.
pub open spec fn trimmed_start(s: Seq<char>) -> Seq<char>
    decreases s.len(),
{
    if s.len() > 0 && is_ascii_whitespace(s[0]) {
        trimmed_start(s.skip(1))
    } else {
        s
    }
}

/// The sequence with its trailing ASCII whitespace removed.
pub open spec fn trimmed_end(s: Seq<char>) -> Seq<char>
    decreases s.len(),
{
    if s.len() > 0 && is_ascii_whitespace(s[s.len() - 1]) {
        trimmed_end(s.take(s.len() - 1))
    } else {
        s
    }
}

/// The sequence with leading and trailing ASCII whitespace removed.
pub open spec fn trimmed(s: Seq<char>) -> Seq<char> {
    trimmed_end(trimmed_start(s))
}

pub fn trim(s: &Vec<char>) -> (r: Vec<char>)
    ensures
        r@ == trimmed(s@),
{
    let mut a: usize = 0;
    proof {
        assert(s@.skip(0) =~= s@);
    }
    while a < s.len() && check_ascii_whitespace(s[a])
        invariant
            a <= s@.len(),
            trimmed_start(s@) == trimmed_start(s@.skip(a as int)),
        decreases s@.len() - a,
    {
        proof {
            assert(s@.skip(a as int)[0] == s@[a as int]);
            assert(s@.skip(a as int).skip(1) =~= s@.skip(a as int + 1));
        }
        a += 1;
    }
    proof {
        if a < s@.len() {
            assert(s@.skip(a as int)[0] == s@[a as int]);
        } else {
            assert(s@.skip(a as int) =~= Seq::<char>::empty());
        }
        assert(trimmed_start(s@) == s@.skip(a as int));
    }
    let mut b: usize = s.len();
    while b > a && check_ascii_whitespace(s[b - 1])
        invariant
            a <= b <= s@.len(),
            trimmed_start(s@) == s@.skip(a as int),
            trimmed_end(s@.skip(a as int)) == trimmed_end(s@.subrange(a as int, b as int)),
        decreases b,
    {
        proof {
            let t = s@.subrange(a as int, b as int);
            assert(t[t.len() - 1] == s@[b - 1]);
            assert(t.take(t.len() - 1) =~= s@.subrange(a as int, b as int - 1));
        }
        b -= 1;
    }
    proof {
        let t = s@.subrange(a as int, b as int);
        if b > a {
            assert(t[t.len() - 1] == s@[b - 1]);
        }
        assert(trimmed_end(t) == t);
    }
    let mut out: Vec<char> = Vec::new();
    let mut i: usize = a;
    while i < b
        invariant
            a <= i <= b <= s@.len(),
            out@ == s@.subrange(a as int, i as int),
        decreases b - i,
    {
        out.push(s[i]);
        proof {
            assert(out@ =~= s@.subrange(a as int, i as int + 1));
        }
        i += 1;
    }
    proof {
        assert(s@.skip(a as int).skip(0) =~= s@.skip(a as int));
    }
    out
}

/// Trimming the front leaves no leading ASCII whitespace.
proof fn lemma_trimmed_start_shape(s: Seq<char>)
    ensures
        trimmed_start(s).len() == 0 || !is_ascii_whitespace(trimmed_start(s)[0]),
    decreases s.len(),
{
    if s.len() > 0 && is_ascii_whitespace(s[0]) {
        lemma_trimmed_start_shape(s.skip(1));
    }
}

/// Trimming the end leaves no trailing ASCII whitespace, and returns a
/// prefix of the text.
proof fn lemma_trimmed_end_shape(s: Seq<char>)
    ensures
        trimmed_end(s).len() == 0 || !is_ascii_whitespace(trimmed_end(s)[trimmed_end(s).len() - 1]),
        trimmed_end(s).len() <= s.len(),
        forall|i: int| 0 <= i < trimmed_end(s).len() ==> trimmed_end(s)[i] == s[i],
    decreases s.len(),
{
    if s.len() > 0 && is_ascii_whitespace(s[s.len() - 1]) {
        let t = s.take(s.len() - 1);
        lemma_trimmed_end_shape(t);
        assert(trimmed_end(s) == trimmed_end(t));
        assert forall|i: int| 0 <= i < trimmed_end(s).len() implies trimmed_end(s)[i] == s[i] by {
            assert(trimmed_end(t)[i] == t[i]);
            assert(t[i] == s[i]);
        }
    }
}

/// Trimming is idempotent: trimming already trimmed text changes nothing.
pub proof fn lemma_trimmed_idempotent(s: Seq<char>)
    ensures
        trimmed(trimmed(s)) == trimmed(s),
{
    let ts = trimmed_start(s);
    let te = trimmed_end(ts);
    lemma_trimmed_start_shape(s);
    lemma_trimmed_end_shape(ts);
    if te.len() > 0 {
        assert(te[0] == ts[0]);
    }
    assert(trimmed_start(te) == te);
    assert(trimmed_end(te) == te);
}

/// Every run of two or more generic whitespace characters collapsed to a
/// single ASCII space; a whitespace character with no whitespace neighbour
/// stays as it is. `in_run` says whether the character just before `s` was
/// whitespace.
pub open spec fn multi_ws_collapsed(s: Seq<char>, in_run: bool) -> Seq<char>
    decreases s.len(),
{
    if s.len() == 0 {
        Seq::empty()
    } else if is_whitespace(s[0]) {
        if in_run {
            multi_ws_collapsed(s.skip(1), true)
        } else if s.len() >= 2 && is_whitespace(s[1]) {
            seq![' '] + multi_ws_collapsed(s.skip(1), true)
        } else {
            seq![s[0]] + multi_ws_collapsed(s.skip(1), false)
        }
    } else {
        seq![s[0]] + multi_ws_collapsed(s.skip(1), false)
    }
}

pub fn collapse_multi_whitespace(s: &Vec<char>) -> (r: Vec<char>)
    ensures
        r@ == multi_ws_collapsed(s@, false),
{
    let mut out: Vec<char> = Vec::new();
    let mut i: usize = 0;
    let mut in_run = false;
    proof {
        assert(s@.skip(0) =~= s@);
        assert(out@ + multi_ws_collapsed(s@, false) =~= multi_ws_collapsed(s@, false));
    }
    while i < s.len()
        invariant
            i <= s@.len(),
            multi_ws_collapsed(s@, false) == out@ + multi_ws_collapsed(s@.skip(i as int), in_run),
        decreases s@.len() - i,
    {
        proof {
            assert(s@.skip(i as int)[0] == s@[i as int]);
            if i + 1 < s@.len() {
                assert(s@.skip(i as int)[1] == s@[i as int + 1]);
            }
            assert(s@.skip(i as int).skip(1) =~= s@.skip(i as int + 1));
        }
        let ghost out0 = out@;
        let ghost run0 = in_run;
        let c = s[i];
        if check_whitespace(c) {
            if in_run {
                // nothing: the run's single space was already emitted
            } else if i + 1 < s.len() && check_whitespace(s[i + 1]) {
                out.push(' ');
                in_run = true;
            } else {
                out.push(c);
                in_run = false;
            }
        } else {
            out.push(c);
            in_run = false;
        }
        proof {
            assert(out0 + multi_ws_collapsed(s@.skip(i as int), run0) =~= out@
                + multi_ws_collapsed(s@.skip(i as int + 1), in_run));
        }
        i += 1;
    }
    proof {
        assert(s@.skip(s@.len() as int) =~= Seq::<char>::empty());
        assert(out@ + Seq::<char>::empty() =~= out@);
    }
    out
}

/// Collapsed whitespace shape: no whitespace character is followed by
/// another.
pub open spec fn single_spaced(o: Seq<char>) -> bool {
    forall|p: int|
        0 <= p < o.len() && is_whitespace(#[trigger] o[p]) ==> (p == o.len() - 1
            || !is_whitespace(o[p + 1]))
}

/// The whitespace collapse only produces single-spaced output, and produces
/// no whitespace at the front when the character before the text was
/// whitespace.
pub proof fn lemma_multi_ws_single_spaced(s: Seq<char>, in_run: bool)
    ensures
        single_spaced(multi_ws_collapsed(s, in_run)),
        in_run ==> (multi_ws_collapsed(s, in_run).len() == 0 || !is_whitespace(
            multi_ws_collapsed(s, in_run)[0],
        )),
    decreases s.len(),
{
    let o = multi_ws_collapsed(s, in_run);
    if s.len() == 0 {
    } else if is_whitespace(s[0]) && in_run {
        lemma_multi_ws_single_spaced(s.skip(1), true);
    } else {
        let head: char = if is_whitespace(s[0]) && s.len() >= 2 && is_whitespace(s[1]) {
            ' '
        } else {
            s[0]
        };
        let next_run = is_whitespace(s[0]) && s.len() >= 2 && is_whitespace(s[1]);
        lemma_multi_ws_single_spaced(s.skip(1), next_run);
        let o1 = multi_ws_collapsed(s.skip(1), next_run);
        assert(o == seq![head] + o1);
        assert forall|p: int| 0 <= p < o.len() && is_whitespace(#[trigger] o[p]) implies (p
            == o.len() - 1 || !is_whitespace(o[p + 1])) by {
            if p == 0 {
                if o.len() > 1 {
                    assert(o[1] == o1[0]);
                    if is_whitespace(head) {
                        // a whitespace head means either a collapsed run,
                        // whose tail starts after the run, or a lone
                        // whitespace character followed by a non-whitespace
                        // one
                        if next_run {
                        } else {
                            assert(o1[0] == multi_ws_collapsed(s.skip(1), false)[0]);
                            if s.len() >= 2 {
                                assert(s.skip(1)[0] == s[1]);
                                assert(!is_whitespace(s[1]));
                            } else {
                                assert(s.skip(1).len() == 0);
                            }
                        }
                    }
                }
            } else {
                assert(o[p] == o1[p - 1]);
                if p < o.len() - 1 {
                    assert(o[p + 1] == o1[p]);
                }
            }
        }
    }
}

/// Single-spaced text is a fixpoint of the whitespace collapse, when the
/// character assumed before the text is not whitespace wherever the text
/// starts with whitespace.
pub proof fn lemma_multi_ws_fixed(o: Seq<char>, in_run: bool)
    requires
        single_spaced(o),
        in_run ==> (o.len() == 0 || !is_whitespace(o[0])),
    ensures
        multi_ws_collapsed(o, in_run) == o,
    decreases o.len(),
{
    if o.len() == 0 {
        assert(multi_ws_collapsed(o, in_run) =~= o);
    } else {
        assert forall|p: int| 0 <= p < o.skip(1).len() && is_whitespace(
            #[trigger] o.skip(1)[p],
        ) implies (p == o.skip(1).len() - 1 || !is_whitespace(o.skip(1)[p + 1])) by {
            assert(o.skip(1)[p] == o[p + 1]);
            if p < o.skip(1).len() - 1 {
                assert(o.skip(1)[p + 1] == o[p + 2]);
            }
        }
        if is_whitespace(o[0]) {
            assert(!(o.len() >= 2 && is_whitespace(o[1])));
            if o.len() > 1 {
                assert(o.skip(1)[0] == o[1]);
            }
            lemma_multi_ws_fixed(o.skip(1), false);
            assert(seq![o[0]] + o.skip(1) =~= o);
        } else {
            lemma_multi_ws_fixed(o.skip(1), false);
            assert(seq![o[0]] + o.skip(1) =~= o);
        }
    }
}

/// The whitespace collapse is idempotent: collapsing already collapsed text
/// changes nothing.
pub proof fn lemma_multi_ws_idempotent(s: Seq<char>)
    ensures
        multi_ws_collapsed(multi_ws_collapsed(s, false), false) == multi_ws_collapsed(s, false),
{
    lemma_multi_ws_single_spaced(s, false);
    lemma_multi_ws_fixed(multi_ws_collapsed(s, false), false);
}

/// Runs of literal dots cut down to at most three: the first three dots of
/// every run stay, the rest are dropped. `run` is how many dots immediately
/// precede `s`, counted up to three.
pub open spec fn long_dots_collapsed(s: Seq<char>, run: nat) -> Seq<char>
    decreases s.len(),
{
    if s.len() == 0 {
        Seq::empty()
    } else if s[0] == '.' {
        if run >= 3 {
            long_dots_collapsed(s.skip(1), 3)
        } else {
            seq!['.'] + long_dots_collapsed(s.skip(1), run + 1)
        }
    } else {
        seq![s[0]] + long_dots_collapsed(s.skip(1), 0)
    }
}

pub fn collapse_long_dots(s: &Vec<char>) -> (r: Vec<char>)
    ensures
        r@ == long_dots_collapsed(s@, 0),
{
    let mut out: Vec<char> = Vec::new();
    let mut i: usize = 0;
    let mut run: usize = 0;
    proof {
        assert(s@.skip(0) =~= s@);
        assert(out@ + long_dots_collapsed(s@, 0) =~= long_dots_collapsed(s@, 0));
    }
    while i < s.len()
        invariant
            i <= s@.len(),
            run <= 3,
            long_dots_collapsed(s@, 0) == out@ + long_dots_collapsed(s@.skip(i as int), run as nat),
        decreases s@.len() - i,
    {
        proof {
            assert(s@.skip(i as int)[0] == s@[i as int]);
            assert(s@.skip(i as int).skip(1) =~= s@.skip(i as int + 1));
        }
        let ghost out0 = out@;
        let ghost run0 = run;
        let c = s[i];
        if c == '.' {
            if run >= 3 {
                run = 3;
            } else {
                out.push('.');
                run += 1;
            }
        } else {
            out.push(c);
            run = 0;
        }
        proof {
            assert(out0 + long_dots_collapsed(s@.skip(i as int), run0 as nat) =~= out@
                + long_dots_collapsed(s@.skip(i as int + 1), run as nat));
        }
        i += 1;
    }
    proof {
        assert(s@.skip(s@.len() as int) =~= Seq::<char>::empty());
        assert(out@ + Seq::<char>::empty() =~= out@);
    }
    out
}

/// The number of dots at the front of the sequence.
pub open spec fn dots_prefix(o: Seq<char>) -> nat
    decreases o.len(),
{
    if o.len() > 0 && o[0] == '.' {
        1 + dots_prefix(o.skip(1))
    } else {
        0
    }
}

/// Shortened output shape: no run of more than three dots anywhere.
pub open spec fn dots_bounded(o: Seq<char>) -> bool {
    forall|p: int| 0 <= p <= o.len() ==> dots_prefix(#[trigger] o.skip(p)) <= 3
}

/// The dot collapse only produces output whose dot runs are bounded by
/// three, and whose leading run together with the dots assumed before the
/// text stays within three.
pub proof fn lemma_long_dots_bounded(s: Seq<char>, run: nat)
    requires
        run <= 3,
    ensures
        dots_bounded(long_dots_collapsed(s, run)),
        dots_prefix(long_dots_collapsed(s, run)) + run <= 3,
    decreases s.len(),
{
    let o = long_dots_collapsed(s, run);
    if s.len() == 0 {
        assert(dots_prefix(o) == 0);
        assert forall|p: int| 0 <= p <= o.len() implies dots_prefix(#[trigger] o.skip(p)) <= 3 by {
            assert(o.skip(p) =~= Seq::<char>::empty());
        }
    } else if s[0] == '.' && run >= 3 {
        lemma_long_dots_bounded(s.skip(1), 3);
    } else {
        let head: char = if s[0] == '.' {
            '.'
        } else {
            s[0]
        };
        let next_run: nat = if s[0] == '.' {
            run + 1
        } else {
            0
        };
        lemma_long_dots_bounded(s.skip(1), next_run);
        let o1 = long_dots_collapsed(s.skip(1), next_run);
        assert(o == seq![head] + o1);
        assert(o.skip(1) =~= o1);
        assert forall|p: int| 0 <= p <= o.len() implies dots_prefix(#[trigger] o.skip(p)) <= 3 by {
            if p == 0 {
                assert(o.skip(0) =~= o);
                if head == '.' {
                    assert(dots_prefix(o) == 1 + dots_prefix(o1));
                } else {
                    assert(dots_prefix(o) == 0);
                }
            } else {
                assert(o.skip(p) =~= o1.skip(p - 1));
            }
        }
        if head == '.' {
            assert(dots_prefix(o) == 1 + dots_prefix(o1));
        } else {
            assert(dots_prefix(o) == 0);
        }
    }
}

/// Text whose dot runs are bounded by three is a fixpoint of the dot
/// collapse, when the dots assumed before the text and its leading run stay
/// within three together.
pub proof fn lemma_long_dots_fixed(o: Seq<char>, run: nat)
    requires
        dots_bounded(o),
        dots_prefix(o) + run <= 3,
    ensures
        long_dots_collapsed(o, run) == o,
    decreases o.len(),
{
    if o.len() == 0 {
        assert(long_dots_collapsed(o, run) =~= o);
    } else {
        assert(o.skip(0) =~= o);
        assert forall|p: int| 0 <= p <= o.skip(1).len() implies dots_prefix(
            #[trigger] o.skip(1).skip(p),
        ) <= 3 by {
            assert(o.skip(1).skip(p) =~= o.skip(p + 1));
        }
        if o[0] == '.' {
            assert(dots_prefix(o) == 1 + dots_prefix(o.skip(1)));
            assert(run < 3);
            lemma_long_dots_fixed(o.skip(1), run + 1);
            assert(seq!['.'] + o.skip(1) =~= o);
        } else {
            assert(dots_prefix(o.skip(1)) <= 3);
            lemma_long_dots_fixed(o.skip(1), 0);
            assert(seq![o[0]] + o.skip(1) =~= o);
        }
    }
}

/// The dot collapse is idempotent: collapsing already collapsed text
/// changes nothing.
pub proof fn lemma_long_dots_idempotent(s: Seq<char>)
    ensures
        long_dots_collapsed(long_dots_collapsed(s, 0), 0) == long_dots_collapsed(s, 0),
{
    lemma_long_dots_bounded(s, 0);
    lemma_long_dots_fixed(long_dots_collapsed(s, 0), 0);
}

/// The punctuation-aware whitespace pass. Every maximal whitespace run is
/// deleted when the character just before or just after it is ASCII
/// punctuation, and collapses to a single ASCII space otherwise; a run at
/// the very start or end of the text has no neighbour on that side and only
/// the other side decides. `in_run` says whether the character just before
/// `s` was whitespace; `flag` is whether the last non-whitespace character
/// before `s` was ASCII punctuation (false when there is none).
pub open spec fn punct_ws_applied(s: Seq<char>, in_run: bool, flag: bool) -> Seq<char>
    decreases s.len(),
{
    if s.len() == 0 {
        if in_run && !flag {
            seq![' ']
        } else {
            Seq::empty()
        }
    } else if is_whitespace(s[0]) {
        punct_ws_applied(s.skip(1), true, flag)
    } else {
        let pre: Seq<char> = if in_run && !flag && !is_ascii_punct(s[0]) {
            seq![' ']
        } else {
            Seq::empty()
        };
        pre + seq![s[0]] + punct_ws_applied(s.skip(1), false, is_ascii_punct(s[0]))
    }
}

pub fn apply_punct_ws(s: &Vec<char>) -> (r: Vec<char>)
    ensures
        r@ == punct_ws_applied(s@, false, false),
{
    let mut out: Vec<char> = Vec::new();
    let mut i: usize = 0;
    let mut in_run = false;
    let mut flag = false;
    proof {
        assert(s@.skip(0) =~= s@);
        assert(out@ + punct_ws_applied(s@, false, false) =~= punct_ws_applied(s@, false, false));
    }
    while i < s.len()
        invariant
            i <= s@.len(),
            punct_ws_applied(s@, false, false) == out@ + punct_ws_applied(
                s@.skip(i as int),
                in_run,
                flag,
            ),
        decreases s@.len() - i,
    {
        proof {
            assert(s@.skip(i as int)[0] == s@[i as int]);
            assert(s@.skip(i as int).skip(1) =~= s@.skip(i as int + 1));
        }
        let ghost out0 = out@;
        let ghost run0 = in_run;
        let ghost flag0 = flag;
        let c = s[i];
        if check_whitespace(c) {
            in_run = true;
        } else {
            let punct = check_ascii_punct(c);
            if in_run && !flag && !punct {
                out.push(' ');
            }
            out.push(c);
            in_run = false;
            flag = punct;
        }
        proof {
            assert(out0 + punct_ws_applied(s@.skip(i as int), run0, flag0) =~= out@
                + punct_ws_applied(s@.skip(i as int + 1), in_run, flag));
        }
        i += 1;
    }
    if in_run && !flag {
        out.push(' ');
    }
    proof {
        assert(s@.skip(s@.len() as int) =~= Seq::<char>::empty());
        assert(punct_ws_applied(Seq::<char>::empty(), in_run, flag) =~= if in_run && !flag {
            seq![' ']
        } else {
            Seq::<char>::empty()
        });
        assert(out@ =~= punct_ws_applied(s@, false, false));
    }
    out
}

/// Shape of the punctuation-aware pass's output: every whitespace character
/// is a lone ASCII space whose neighbours, where they exist, are neither
/// whitespace nor ASCII punctuation.
pub open spec fn ws_separated(o: Seq<char>) -> bool {
    forall|p: int|
        0 <= p < o.len() && is_whitespace(#[trigger] o[p]) ==> {
            &&& o[p] == ' '
            &&& (p == 0 || (!is_whitespace(o[p - 1]) && !is_ascii_punct(o[p - 1])))
            &&& (p == o.len() - 1 || (!is_whitespace(o[p + 1]) && !is_ascii_punct(o[p + 1])))
        }
}

/// The punctuation-aware pass only produces whitespace-separated output, and
/// produces none at the front when the character before the text was ASCII
/// punctuation.
pub proof fn lemma_punct_ws_separated(s: Seq<char>, in_run: bool, flag: bool)
    ensures
        ws_separated(punct_ws_applied(s, in_run, flag)),
        flag ==> (punct_ws_applied(s, in_run, flag).len() == 0 || !is_whitespace(
            punct_ws_applied(s, in_run, flag)[0],
        )),
    decreases s.len(),
{
    let o = punct_ws_applied(s, in_run, flag);
    if s.len() == 0 {
        assert(ws_separated(o));
    } else if is_whitespace(s[0]) {
        lemma_punct_ws_separated(s.skip(1), true, flag);
    } else {
        let c = s[0];
        let cp = is_ascii_punct(c);
        lemma_punct_ws_separated(s.skip(1), false, cp);
        let o1 = punct_ws_applied(s.skip(1), false, cp);
        let pre: Seq<char> = if in_run && !flag && !cp {
            seq![' ']
        } else {
            Seq::empty()
        };
        assert(o == pre + seq![c] + o1);
        let base = pre.len() + 1;
        assert forall|p: int| 0 <= p < o.len() && is_whitespace(#[trigger] o[p]) implies {
            &&& o[p] == ' '
            &&& (p == 0 || (!is_whitespace(o[p - 1]) && !is_ascii_punct(o[p - 1])))
            &&& (p == o.len() - 1 || (!is_whitespace(o[p + 1]) && !is_ascii_punct(o[p + 1])))
        } by {
            if p < pre.len() {
                // the single collapsed space in front: its neighbour is c,
                // which is neither whitespace nor punctuation here
                assert(o[p] == ' ');
                assert(o[p + 1] == c);
            } else if p == pre.len() {
                assert(o[p] == c);
                assert(!is_whitespace(o[p]));
            } else {
                let q = p - base;
                assert(o[p] == o1[q]);
                assert(is_whitespace(o1[q]));
                if q == 0 {
                    // a space at the front of the tail: the previous
                    // character in o is c, and c cannot be punctuation
                    // because the tail then starts with no whitespace
                    assert(o[p - 1] == c);
                    assert(!cp);
                } else {
                    assert(o[p - 1] == o1[q - 1]);
                }
                if q < o1.len() - 1 {
                    assert(o[p + 1] == o1[q + 1]);
                }
            }
        }
    }
}

/// Whitespace-separated text is a fixpoint of the punctuation-aware pass,
/// when the character assumed before the text is not punctuation wherever
/// the text starts with a space.
pub proof fn lemma_punct_ws_fixed(o: Seq<char>, flag: bool)
    requires
        ws_separated(o),
        flag ==> (o.len() == 0 || !is_whitespace(o[0])),
    ensures
        punct_ws_applied(o, false, flag) == o,
    decreases o.len(),
{
    if o.len() == 0 {
    } else if !is_whitespace(o[0]) {
        let c = o[0];
        let cp = is_ascii_punct(c);
        assert(o.skip(1).len() == o.len() - 1);
        assert forall|q: int| 0 <= q < o.skip(1).len() && is_whitespace(#[trigger] o.skip(1)[q]) implies {
            &&& o.skip(1)[q] == ' '
            &&& (q == 0 || (!is_whitespace(o.skip(1)[q - 1]) && !is_ascii_punct(o.skip(1)[q - 1])))
            &&& (q == o.skip(1).len() - 1 || (!is_whitespace(o.skip(1)[q + 1]) && !is_ascii_punct(
                o.skip(1)[q + 1],
            )))
        } by {
            assert(o.skip(1)[q] == o[q + 1]);
            if q > 0 {
                assert(o.skip(1)[q - 1] == o[q]);
            }
            if q < o.skip(1).len() - 1 {
                assert(o.skip(1)[q + 1] == o[q + 2]);
            }
        }
        assert(ws_separated(o.skip(1)));
        if o.len() > 1 && is_whitespace(o[1]) {
            assert(o.skip(1)[0] == o[1]);
            assert(!is_ascii_punct(o[0]));
            assert(!cp);
        }
        lemma_punct_ws_fixed(o.skip(1), cp);
        assert(punct_ws_applied(o, false, flag) == seq![c] + punct_ws_applied(o.skip(1), false, cp));
        assert(seq![c] + o.skip(1) =~= o);
    } else {
        // the head is a lone space: the pass re-collapses it to itself
        assert(o[0] == ' ');
        assert(!flag);
        assert(punct_ws_applied(o, false, false) == punct_ws_applied(o.skip(1), true, false));
        if o.len() == 1 {
            assert(o.skip(1) =~= Seq::<char>::empty());
            assert(punct_ws_applied(o.skip(1), true, false) =~= seq![' ']);
            assert(o =~= seq![' ']);
        } else {
            let c = o[1];
            assert(!is_whitespace(c) && !is_ascii_punct(c));
            assert(o.skip(1)[0] == c);
            assert(o.skip(1).skip(1) =~= o.skip(2));
            let cp = is_ascii_punct(c);
            assert(punct_ws_applied(o.skip(1), true, false) == seq![' '] + seq![c]
                + punct_ws_applied(o.skip(2), false, cp));
            assert(o.skip(2).len() == o.len() - 2);
            assert forall|q: int| 0 <= q < o.skip(2).len() && is_whitespace(#[trigger] o.skip(2)[q]) implies {
                &&& o.skip(2)[q] == ' '
                &&& (q == 0 || (!is_whitespace(o.skip(2)[q - 1]) && !is_ascii_punct(
                    o.skip(2)[q - 1],
                )))
                &&& (q == o.skip(2).len() - 1 || (!is_whitespace(o.skip(2)[q + 1])
                    && !is_ascii_punct(o.skip(2)[q + 1])))
            } by {
                assert(o.skip(2)[q] == o[q + 2]);
                if q > 0 {
                    assert(o.skip(2)[q - 1] == o[q + 1]);
                }
                if q < o.skip(2).len() - 1 {
                    assert(o.skip(2)[q + 1] == o[q + 3]);
                }
            }
            assert(ws_separated(o.skip(2)));
            if o.len() > 2 && is_whitespace(o[2]) {
                assert(o.skip(2)[0] == o[2]);
                assert(!is_ascii_punct(o[1]));
            }
            lemma_punct_ws_fixed(o.skip(2), cp);
            assert(seq![' '] + seq![c] + o.skip(2) =~= o);
        }
    }
}

/// The punctuation-aware whitespace pass is idempotent: applying it to its
/// own output changes nothing. Re-canonicalizing canonical text therefore
/// cannot diverge in this pass.
pub proof fn lemma_punct_ws_idempotent(s: Seq<char>)
    ensures
        punct_ws_applied(punct_ws_applied(s, false, false), false, false) == punct_ws_applied(
            s,
            false,
            false,
        ),
{
    lemma_punct_ws_separated(s, false, false);
    lemma_punct_ws_fixed(punct_ws_applied(s, false, false), false);
}

} // verus!

//! Literal substring replacement and the ordered substitution tables.
use vstd::prelude::*;

verus! {

/// Every non-overlapping occurrence of `pat` in `s`, found left to right,
/// replaced by `to`. An empty pattern replaces nothing.
pub open spec fn replaced(s: Seq<char>, pat: Seq<char>, to: Seq<char>) -> Seq<char>
    decreases s.len(),
{
    if pat.len() == 0 || s.len() < pat.len() {
        s
    } else if s.take(pat.len() as int) == pat {
        to + replaced(s.skip(pat.len() as int), pat, to)
    } else {
        seq![s[0]] + replaced(s.skip(1), pat, to)
    }
}

/// Whether `pat` occurs in `s` at position `i`.
fn matches_at(s: &Vec<char>, pat: &Vec<char>, i: usize) -> (b: bool)
    requires
        i + pat@.len() <= s@.len(),
    ensures
        b == (s@.subrange(i as int, i + pat@.len()) == pat@),
{
    let n = s.len();
    let mut j: usize = 0;
    while j < pat.len()
        invariant
            j <= pat@.len(),
            n == s@.len(),
            i + pat@.len() <= s@.len(),
            forall|x: int| 0 <= x < j ==> s@[i + x] == pat@[x],
        decreases pat@.len() - j,
    {
        proof {
            assert(i + j < s@.len());
        }
        if s[i + j] != pat[j] {
            proof {
                assert(s@.subrange(i as int, i + pat@.len())[j as int] == s@[i + j]);
            }
            return false;
        }
        j += 1;
    }
    proof {
        assert(s@.subrange(i as int, i + pat@.len()) =~= pat@);
    }
    true
}

/// Replaces every non-overlapping occurrence of `pat` in `s` with `to`,
/// scanning left to right.
pub fn replace_all(s: &Vec<char>, pat: &Vec<char>, to: &Vec<char>) -> (r: Vec<char>)
    ensures
        r@ == replaced(s@, pat@, to@),
{
    let mut out: Vec<char> = Vec::new();
    let mut i: usize = 0;
    proof {
        assert(s@.skip(0) =~= s@);
        assert(out@ + replaced(s@, pat@, to@) =~= replaced(s@, pat@, to@));
    }
    while i < s.len()
        invariant
            i <= s@.len(),
            replaced(s@, pat@, to@) == out@ + replaced(s@.skip(i as int), pat@, to@),
        decreases s@.len() - i,
    {
        proof {
            assert(s@.skip(i as int)[0] == s@[i as int]);
            assert(s@.skip(i as int).skip(1) =~= s@.skip(i as int + 1));
        }
        let ghost out0 = out@;
        if pat.len() > 0 && pat.len() <= s.len() - i && matches_at(s, pat, i) {
            proof {
                assert(s@.skip(i as int).take(pat@.len() as int) =~= s@.subrange(
                    i as int,
                    i + pat@.len(),
                ));
                assert(s@.skip(i as int).skip(pat@.len() as int) =~= s@.skip(i + pat@.len()));
            }
            let mut j: usize = 0;
            while j < to.len()
                invariant
                    j <= to@.len(),
                    out@ == out0 + to@.take(j as int),
                decreases to@.len() - j,
            {
                out.push(to[j]);
                proof {
                    assert(out0 + to@.take(j as int) + seq![to@[j as int]] =~= out0 + to@.take(
                        j as int + 1,
                    ));
                }
                j += 1;
            }
            proof {
                assert(to@.take(to@.len() as int) =~= to@);
                assert(out0 + replaced(s@.skip(i as int), pat@, to@) =~= out@ + replaced(
                    s@.skip(i + pat@.len()),
                    pat@,
                    to@,
                ));
            }
            i += pat.len();
        } else {
            out.push(s[i]);
            proof {
                if pat@.len() > 0 && s@.skip(i as int).len() >= pat@.len() {
                    assert(s@.skip(i as int).take(pat@.len() as int) =~= s@.subrange(
                        i as int,
                        i + pat@.len(),
                    ));
                }
                assert(out0 + replaced(s@.skip(i as int), pat@, to@) =~= out@ + replaced(
                    s@.skip(i as int + 1),
                    pat@,
                    to@,
                ));
            }
            i += 1;
        }
    }
    proof {
        assert(s@.skip(s@.len() as int) =~= Seq::<char>::empty());
        assert(out@ + Seq::<char>::empty() =~= out@);
    }
    out
}

/// The view of a list of substitution pairs: each side as its character
/// sequence.
pub open spec fn pairs_view(t: Seq<(Vec<char>, Vec<char>)>) -> Seq<(Seq<char>, Seq<char>)> {
    t.map_values(|p: (Vec<char>, Vec<char>)| (p.0@, p.1@))
}

/// The table's entries applied in declared order, each entry replacing all
/// its non-overlapping occurrences before the next entry is applied.
pub open spec fn table_applied(s: Seq<char>, t: Seq<(Seq<char>, Seq<char>)>) -> Seq<char>
    decreases t.len(),
{
    if t.len() == 0 {
        s
    } else {
        table_applied(replaced(s, t[0].0, t[0].1), t.skip(1))
    }
}

/// Applies the substitution pairs to `s` in table order.
pub fn apply_table(s: Vec<char>, t: &Vec<(Vec<char>, Vec<char>)>) -> (r: Vec<char>)
    ensures
        r@ == table_applied(s@, pairs_view(t@)),
{
    let mut cur = s;
    let ghost s0 = cur@;
    let mut i: usize = 0;
    proof {
        assert(pairs_view(t@).skip(0) =~= pairs_view(t@));
    }
    while i < t.len()
        invariant
            i <= t@.len(),
            table_applied(s0, pairs_view(t@)) == table_applied(
                cur@,
                pairs_view(t@).skip(i as int),
            ),
        decreases t@.len() - i,
    {
        proof {
            assert(pairs_view(t@).skip(i as int)[0] == pairs_view(t@)[i as int]);
            assert(pairs_view(t@)[i as int] == (t@[i as int].0@, t@[i as int].1@));
            assert(pairs_view(t@).skip(i as int).skip(1) =~= pairs_view(t@).skip(i as int + 1));
        }
        let next = replace_all(&cur, &t[i].0, &t[i].1);
        cur = next;
        i += 1;
    }
    proof {
        assert(pairs_view(t@).skip(t@.len() as int) =~= Seq::<(Seq<char>, Seq<char>)>::empty());
    }
    cur
}

} // verus!

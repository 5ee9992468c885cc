//! Plain substring replacement: every non-overlapping occurrence of a
//! pattern, scanned from the left, is replaced by a fixed replacement.
//! This is the primitive behind the fixed path-alias table of the link
//! normalizer and the release-date substitution of the book aggregator.

use vstd::prelude::*;
use crate::chars::{chars_of, string_of, push_all};

verus! {

/// `s` with every occurrence of `pat`, scanned from the left and without
/// overlap, replaced by `rep`.  An empty pattern never matches.
pub open spec fn spec_replace(s: Seq<char>, pat: Seq<char>, rep: Seq<char>) -> Seq<char>
    decreases s.len(),
{
    if pat.len() == 0 || s.len() < pat.len() {
        s
    } else if s.take(pat.len() as int) == pat {
        rep + spec_replace(s.skip(pat.len() as int), pat, rep)
    } else {
        seq![s[0]] + spec_replace(s.skip(1), pat, rep)
    }
}

/// True when `pat` occurs in `v` starting at index `i`.
pub fn matches_at(v: &Vec<char>, i: usize, pat: &Vec<char>) -> (r: bool)
    requires
        i <= v@.len(),
    ensures
        r == (i + pat@.len() <= v@.len() && v@.subrange(i as int, i + pat@.len()) == pat@),
{
    if pat.len() > v.len() - i {
        proof {
            assert(i + pat@.len() > v@.len());
        }
        return false;
    }
    let mut j: usize = 0;
    while j < pat.len()
        invariant
            j <= pat@.len(),
            i + pat@.len() <= v@.len(),
            forall|k: int| 0 <= k < j ==> v@[i + k] == pat@[k],
        decreases pat@.len() - j,
    {
        if v[i + j] != pat[j] {
            proof {
                assert(v@.subrange(i as int, i + pat@.len())[j as int] != pat@[j as int]);
            }
            return false;
        }
        j = j + 1;
    }
    proof {
        assert(v@.subrange(i as int, i + pat@.len()) =~= pat@);
    }
    true
}

/// Replaces, from the left and without overlap, every occurrence of `pat`
/// in `v` by `rep`.
pub fn replace_plain_vec(v: &Vec<char>, pat: &Vec<char>, rep: &Vec<char>) -> (r: Vec<char>)
    requires
        pat@.len() >= 1,
    ensures
        r@ == spec_replace(v@, pat@, rep@),
{
    let mut out: Vec<char> = Vec::new();
    let mut i: usize = 0;
    proof {
        assert(v@.skip(0) =~= v@);
        assert(out@ + spec_replace(v@, pat@, rep@) =~= spec_replace(v@, pat@, rep@));
    }
    while i < v.len()
        invariant
            i <= v@.len(),
            out@ + spec_replace(v@.skip(i as int), pat@, rep@) == spec_replace(v@, pat@, rep@),
        decreases v@.len() - i,
    {
        let ghost rest = v@.skip(i as int);
        let ghost prev = out@;
        if matches_at(v, i, pat) {
            proof {
                assert(rest.take(pat@.len() as int) =~= v@.subrange(i as int, i + pat@.len()));
                assert(rest.skip(pat@.len() as int) =~= v@.skip(i + pat@.len()));
                assert(spec_replace(rest, pat@, rep@) == rep@ + spec_replace(
                    v@.skip(i + pat@.len()),
                    pat@,
                    rep@,
                ));
            }
            push_all(&mut out, rep);
            proof {
                assert(out@ + spec_replace(v@.skip(i + pat@.len()), pat@, rep@) =~= prev
                    + spec_replace(rest, pat@, rep@));
            }
            i = i + pat.len();
        } else {
            proof {
                assert(rest.len() >= 1);
                if rest.len() >= pat@.len() {
                    assert(rest.take(pat@.len() as int) =~= v@.subrange(
                        i as int,
                        i + pat@.len(),
                    ));
                    assert(rest.take(pat@.len() as int) != pat@);
                }
                assert(rest[0] == v@[i as int]);
                assert(rest.skip(1) =~= v@.skip(i + 1));
                if rest.len() < pat@.len() {
                    assert(rest.skip(1).len() < pat@.len());
                    assert(seq![rest[0]] + rest.skip(1) =~= rest);
                }
                assert(spec_replace(rest, pat@, rep@) == seq![v@[i as int]] + spec_replace(
                    v@.skip(i + 1),
                    pat@,
                    rep@,
                ));
            }
            out.push(v[i]);
            proof {
                assert(out@ + spec_replace(v@.skip(i + 1), pat@, rep@) =~= prev + spec_replace(
                    rest,
                    pat@,
                    rep@,
                ));
            }
            i = i + 1;
        }
    }
    proof {
        assert(v@.skip(v@.len() as int).len() == 0);
        assert(out@ + Seq::<char>::empty() =~= out@);
    }
    out
}

/// Replaces, from the left and without overlap, every occurrence of `pat`
/// in `text` by `rep`.
pub fn replace_plain(text: &str, pat: &str, rep: &str) -> (r: String)
    requires
        pat@.len() >= 1,
    ensures
        r@ == spec_replace(text@, pat@, rep@),
{
    let v = chars_of(text);
    let p = chars_of(pat);
    let q = chars_of(rep);
    let out = replace_plain_vec(&v, &p, &q);
    string_of(&out)
}

} // verus!

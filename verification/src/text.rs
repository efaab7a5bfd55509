//! Literal substring matching, counting and replacement over character
//! sequences: the engine behind content rewriting, basename rewriting and
//! diagnostic scanning. Patterns are plain literals, never interpreted.

use vstd::prelude::*;

verus! {

/// One left-to-right, non-overlapping pass replacing every literal
/// occurrence of `pat` in `s` by `rep`. An empty pattern leaves `s`
/// unchanged: a rule with an empty search string is a no-op by contract.
pub open spec fn replaced(s: Seq<char>, pat: Seq<char>, rep: Seq<char>) -> Seq<char>
    decreases s.len(),
{
    if pat.len() == 0 || s.len() < pat.len() {
        s
    } else if s.take(pat.len() as int) == pat {
        rep + replaced(s.skip(pat.len() as int), pat, rep)
    } else {
        seq![s[0]] + replaced(s.skip(1), pat, rep)
    }
}

/// Number of literal occurrences of `pat` in `s`, counted left to right
/// without overlap. Zero for an empty `pat`.
pub open spec fn occ_count(s: Seq<char>, pat: Seq<char>) -> nat
    decreases s.len(),
{
    if pat.len() == 0 || s.len() < pat.len() {
        0
    } else if s.take(pat.len() as int) == pat {
        1 + occ_count(s.skip(pat.len() as int), pat)
    } else {
        occ_count(s.skip(1), pat)
    }
}

/// Whether `pat` occurs in `s` as a literal substring. Never true for an
/// empty `pat`.
pub open spec fn contains_sub(s: Seq<char>, pat: Seq<char>) -> bool {
    occ_count(s, pat) > 0
}

/// Whether `pat` matches in `s` at position `at`.
pub(crate) fn matches_at(s: &Vec<char>, pat: &Vec<char>, at: usize) -> (r: bool)
    requires
        at + pat@.len() <= s@.len(),
    ensures
        r == (s@.subrange(at as int, at + pat@.len()) == pat@),
{
    let n: usize = s.len();
    let mut j: usize = 0;
    while j < pat.len()
        invariant
            at + pat@.len() <= s@.len(),
            s@.len() == n,
            0 <= j <= pat@.len(),
            forall|k: int| 0 <= k < j ==> s@[at + k] == pat@[k],
        decreases pat@.len() - j,
    {
        if s[at + j] != pat[j] {
            proof {
                assert(s@.subrange(at as int, at + pat@.len())[j as int] == s@[at + j]);
            }
            return false;
        }
        j = j + 1;
    }
    proof {
        assert(s@.subrange(at as int, at + pat@.len()) =~= pat@);
    }
    true
}

/// A fresh copy of a character vector.
fn copy_chars(s: &Vec<char>) -> (r: Vec<char>)
    ensures
        r@ == s@,
{
    let mut r: Vec<char> = Vec::new();
    let mut i: usize = 0;
    while i < s.len()
        invariant
            0 <= i <= s@.len(),
            r@ == s@.take(i as int),
        decreases s@.len() - i,
    {
        r.push(s[i]);
        proof {
            assert(s@.take(i as int).push(s@[i as int]) =~= s@.take(i + 1));
        }
        i = i + 1;
    }
    proof {
        assert(s@.take(s@.len() as int) =~= s@);
    }
    r
}

/// Appends every character of `src` to `out`.
fn append_chars(out: &mut Vec<char>, src: &Vec<char>)
    ensures
        final(out)@ == old(out)@ + src@,
{
    let ghost out0 = old(out)@;
    let mut j: usize = 0;
    while j < src.len()
        invariant
            0 <= j <= src@.len(),
            out@ == out0 + src@.take(j as int),
        decreases src@.len() - j,
    {
        out.push(src[j]);
        proof {
            assert((out0 + src@.take(j as int)).push(src@[j as int]) =~= out0 + src@.take(j + 1));
        }
        j = j + 1;
    }
    proof {
        assert(out0 + src@.take(src@.len() as int) =~= out0 + src@);
    }
}

/// Replaces, in one left-to-right non-overlapping pass, every literal
/// occurrence of `pat` in `s` by `rep`.
pub fn replace_all(s: &Vec<char>, pat: &Vec<char>, rep: &Vec<char>) -> (r: Vec<char>)
    ensures
        r@ == replaced(s@, pat@, rep@),
{
    if pat.len() == 0 || s.len() < pat.len() {
        return copy_chars(s);
    }
    let mut out: Vec<char> = Vec::new();
    let mut i: usize = 0;
    proof {
        assert(s@.skip(0) =~= s@);
        assert(Seq::<char>::empty() + replaced(s@, pat@, rep@) =~= replaced(s@, pat@, rep@));
    }
    while i <= s.len() - pat.len()
        invariant
            0 < pat@.len() <= s@.len(),
            0 <= i <= s@.len(),
            out@ + replaced(s@.skip(i as int), pat@, rep@) == replaced(s@, pat@, rep@),
        decreases s@.len() - i,
    {
        let ghost pre = out@;
        let ghost rest = s@.skip(i as int);
        if matches_at(s, pat, i) {
            proof {
                assert(rest.take(pat@.len() as int) =~= s@.subrange(i as int, i + pat@.len()));
                assert(rest.skip(pat@.len() as int) =~= s@.skip(i + pat@.len()));
                assert(replaced(rest, pat@, rep@) == rep@ + replaced(s@.skip(i + pat@.len()), pat@, rep@));
            }
            append_chars(&mut out, rep);
            i = i + pat.len();
            proof {
                assert(pre + (rep@ + replaced(s@.skip(i as int), pat@, rep@))
                    =~= (pre + rep@) + replaced(s@.skip(i as int), pat@, rep@));
            }
        } else {
            proof {
                assert(rest.take(pat@.len() as int) =~= s@.subrange(i as int, i + pat@.len()));
                assert(rest[0] == s@[i as int]);
                assert(rest.skip(1) =~= s@.skip(i + 1));
                assert(replaced(rest, pat@, rep@) == seq![s@[i as int]] + replaced(s@.skip(i + 1), pat@, rep@));
            }
            out.push(s[i]);
            i = i + 1;
            proof {
                assert(pre + (seq![s@[i - 1]] + replaced(s@.skip(i as int), pat@, rep@))
                    =~= pre.push(s@[i - 1]) + replaced(s@.skip(i as int), pat@, rep@));
            }
        }
    }
    proof {
        assert(replaced(s@.skip(i as int), pat@, rep@) == s@.skip(i as int));
    }
    while i < s.len()
        invariant
            0 <= i <= s@.len(),
            out@ + s@.skip(i as int) == replaced(s@, pat@, rep@),
        decreases s@.len() - i,
    {
        let ghost pre = out@;
        out.push(s[i]);
        proof {
            assert(pre + s@.skip(i as int) =~= pre.push(s@[i as int]) + s@.skip(i + 1));
        }
        i = i + 1;
    }
    proof {
        assert(out@ + s@.skip(s@.len() as int) =~= out@);
    }
    out
}

/// Counts the left-to-right non-overlapping literal occurrences of `pat`
/// in `s`.
pub fn count_matches(s: &Vec<char>, pat: &Vec<char>) -> (r: usize)
    ensures
        r == occ_count(s@, pat@),
{
    if pat.len() == 0 || s.len() < pat.len() {
        return 0;
    }
    let mut cnt: usize = 0;
    let mut i: usize = 0;
    proof {
        assert(s@.skip(0) =~= s@);
    }
    while i <= s.len() - pat.len()
        invariant
            0 < pat@.len() <= s@.len(),
            0 <= i <= s@.len(),
            cnt <= i,
            cnt + occ_count(s@.skip(i as int), pat@) == occ_count(s@, pat@),
        decreases s@.len() - i,
    {
        let ghost rest = s@.skip(i as int);
        if matches_at(s, pat, i) {
            proof {
                assert(rest.take(pat@.len() as int) =~= s@.subrange(i as int, i + pat@.len()));
                assert(rest.skip(pat@.len() as int) =~= s@.skip(i + pat@.len()));
            }
            cnt = cnt + 1;
            i = i + pat.len();
        } else {
            proof {
                assert(rest.take(pat@.len() as int) =~= s@.subrange(i as int, i + pat@.len()));
                assert(rest.skip(1) =~= s@.skip(i + 1));
            }
            i = i + 1;
        }
    }
    cnt
}

/// Whether `pat` occurs in `s` as a literal substring.
pub fn has_match(s: &Vec<char>, pat: &Vec<char>) -> (r: bool)
    ensures
        r == contains_sub(s@, pat@),
{
    if pat.len() == 0 || s.len() < pat.len() {
        return false;
    }
    let mut i: usize = 0;
    proof {
        assert(s@.skip(0) =~= s@);
    }
    while i <= s.len() - pat.len()
        invariant
            0 < pat@.len() <= s@.len(),
            0 <= i <= s@.len(),
            occ_count(s@.skip(i as int), pat@) == occ_count(s@, pat@),
        decreases s@.len() - i,
    {
        let ghost rest = s@.skip(i as int);
        if matches_at(s, pat, i) {
            proof {
                assert(rest.take(pat@.len() as int) =~= s@.subrange(i as int, i + pat@.len()));
            }
            return true;
        }
        proof {
            assert(rest.take(pat@.len() as int) =~= s@.subrange(i as int, i + pat@.len()));
            assert(rest.skip(1) =~= s@.skip(i + 1));
        }
        i = i + 1;
    }
    false
}

} // verus!

//! Path text: `/`-separated relative paths, their file-name and parent
//! parts, joining, and the segment-wise rewrite that bottom-up renaming
//! effects on a whole relative path.

use vstd::prelude::*;
use vstd::string::StringExecFns;
use crate::rules::{WordPair, applied, apply_pairs_chars};
use crate::strings::{chars_of, string_from_chars};

verus! {

/// The file name of a path: the part after the last `/`, or the whole path
/// when it holds no `/`.
pub open spec fn basename_of(p: Seq<char>) -> Seq<char>
    decreases p.len(),
{
    if p.len() > 0 && p.contains('/') {
        basename_of(p.skip(1))
    } else {
        p
    }
}

/// Everything before the file name, the trailing `/` included; empty for a
/// path without one.
pub open spec fn parent_of(p: Seq<char>) -> Seq<char> {
    p.take(p.len() - basename_of(p).len())
}

/// Dropping everything up to and including the `/` at position `k` keeps
/// the file name intact.
proof fn lemma_basename_through(p: Seq<char>, k: int)
    requires
        0 <= k < p.len(),
        p[k] == '/',
    ensures
        basename_of(p) == basename_of(p.skip(k + 1)),
    decreases k,
{
    assert(p.contains('/'));
    if k == 0 {
    } else {
        assert(p.skip(1)[k - 1] == '/');
        lemma_basename_through(p.skip(1), k - 1);
        assert(p.skip(1).skip(k) =~= p.skip(k + 1));
    }
}

/// The position where the file name starts: right after the last `/`, or
/// zero without one.
fn basename_cut(p: &Vec<char>) -> (cut: usize)
    ensures
        cut <= p@.len(),
        p@.skip(cut as int) == basename_of(p@),
{
    let mut cut: usize = 0;
    let mut i: usize = 0;
    proof {
        assert(p@.skip(0) =~= p@);
    }
    while i < p.len()
        invariant
            0 <= cut <= i <= p@.len(),
            basename_of(p@) == basename_of(p@.skip(cut as int)),
            forall|j: int| cut <= j < i ==> p@[j] != '/',
        decreases p@.len() - i,
    {
        if p[i] == '/' {
            proof {
                lemma_basename_through(p@, i as int);
            }
            cut = i + 1;
        }
        i = i + 1;
    }
    let ghost tail = p@.skip(cut as int);
    proof {
        assert forall|m: int| 0 <= m < tail.len() implies tail[m] != '/' by {
            assert(tail[m] == p@[cut + m]);
        }
        assert(!tail.contains('/'));
    }
    cut
}

/// A copy of `p[from..to]`.
fn copy_range(p: &Vec<char>, from: usize, to: usize) -> (r: Vec<char>)
    requires
        from <= to <= p@.len(),
    ensures
        r@ == p@.subrange(from as int, to as int),
{
    let mut r: Vec<char> = Vec::new();
    let mut j: usize = from;
    while j < to
        invariant
            from <= j <= to <= p@.len(),
            r@ == p@.subrange(from as int, j as int),
        decreases to - j,
    {
        r.push(p[j]);
        proof {
            assert(p@.subrange(from as int, j as int).push(p@[j as int]) =~= p@.subrange(from as int, j + 1));
        }
        j = j + 1;
    }
    r
}

/// The part of `p` after its last `/`, or all of `p` without one.
pub(crate) fn basename_chars(p: &Vec<char>) -> (r: Vec<char>)
    ensures
        r@ == basename_of(p@),
{
    let cut = basename_cut(p);
    let r = copy_range(p, cut, p.len());
    proof {
        assert(p@.subrange(cut as int, p@.len() as int) =~= p@.skip(cut as int));
    }
    r
}

/// Splits `p` into its parent part (trailing `/` included) and its file
/// name.
pub(crate) fn split_basename(p: &Vec<char>) -> (r: (Vec<char>, Vec<char>))
    ensures
        r.0@ == parent_of(p@),
        r.1@ == basename_of(p@),
{
    let cut = basename_cut(p);
    let front = copy_range(p, 0, cut);
    let back = copy_range(p, cut, p.len());
    proof {
        assert(p@.subrange(cut as int, p@.len() as int) =~= p@.skip(cut as int));
        assert(p@.subrange(0, cut as int) =~= p@.take(cut as int));
    }
    (front, back)
}

/// The file name of `path`: the part after its last `/`.
pub fn file_name(path: &str) -> (r: String)
    ensures
        r@ == basename_of(path@),
{
    let pv = chars_of(path);
    let bn = basename_chars(&pv);
    string_from_chars(&bn)
}

/// `dir` and `rel` joined with a single `/`.
pub fn join_under(dir: &str, rel: &str) -> (r: String)
    ensures
        r@ == dir@ + seq!['/'] + rel@,
{
    proof {
        reveal_strlit("/");
    }
    let r = String::from_str(dir).concat("/").concat(rel);
    proof {
        assert(dir@ + "/"@ + rel@ =~= dir@ + seq!['/'] + rel@);
    }
    r
}

/// The net effect of bottom-up renaming on one relative path: every
/// `/`-separated segment rewritten by the rules, separators kept.
/// `seg` is the partial segment already read, `rest` the path text still
/// to read.
pub open spec fn renamed_path_from(seg: Seq<char>, rest: Seq<char>, pairs: Seq<WordPair>) -> Seq<char>
    decreases rest.len(),
{
    if rest.len() == 0 {
        applied(seg, pairs)
    } else if rest[0] == '/' {
        applied(seg, pairs) + seq!['/'] + renamed_path_from(Seq::empty(), rest.skip(1), pairs)
    } else {
        renamed_path_from(seg.push(rest[0]), rest.skip(1), pairs)
    }
}

/// A relative path with every segment rewritten by the rules.
pub open spec fn renamed_path(p: Seq<char>, pairs: Seq<WordPair>) -> Seq<char> {
    renamed_path_from(Seq::empty(), p, pairs)
}

/// Rewrites every `/`-separated segment of `path` by the rules, in rule
/// order, keeping the separators: the path a file ends up under once all of
/// its ancestors and its own name have been renamed.
pub fn rename_path_segments(path: &str, pairs: &[WordPair]) -> (r: String)
    ensures
        r@ == renamed_path(path@, pairs@),
{
    let pv = chars_of(path);
    let mut out: Vec<char> = Vec::new();
    let mut seg: Vec<char> = Vec::new();
    let mut i: usize = 0;
    proof {
        assert(pv@.skip(0) =~= pv@);
        assert(Seq::<char>::empty() + renamed_path_from(Seq::empty(), pv@, pairs@)
            =~= renamed_path_from(Seq::empty(), pv@, pairs@));
    }
    while i < pv.len()
        invariant
            0 <= i <= pv@.len(),
            pv@ == path@,
            out@ + renamed_path_from(seg@, pv@.skip(i as int), pairs@) == renamed_path(path@, pairs@),
        decreases pv@.len() - i,
    {
        let ghost rest = pv@.skip(i as int);
        let ghost pre = out@;
        if pv[i] == '/' {
            proof {
                assert(rest[0] == '/');
                assert(rest.skip(1) =~= pv@.skip(i + 1));
            }
            let done = apply_pairs_chars(seg, pairs);
            let mut j: usize = 0;
            let ghost dv = done@;
            while j < done.len()
                invariant
                    0 <= j <= done@.len(),
                    done@ == dv,
                    out@ == pre + dv.take(j as int),
                decreases done@.len() - j,
            {
                out.push(done[j]);
                proof {
                    assert((pre + dv.take(j as int)).push(dv[j as int]) =~= pre + dv.take(j + 1));
                }
                j = j + 1;
            }
            out.push('/');
            seg = Vec::new();
            proof {
                assert(dv.take(dv.len() as int) =~= dv);
                assert((pre + dv).push('/') =~= pre + (dv + seq!['/']));
                assert((pre + (dv + seq!['/'])) + renamed_path_from(Seq::empty(), pv@.skip(i + 1), pairs@)
                    =~= pre + ((dv + seq!['/']) + renamed_path_from(Seq::empty(), pv@.skip(i + 1), pairs@)));
                assert(dv + seq!['/'] + renamed_path_from(Seq::empty(), pv@.skip(i + 1), pairs@)
                    =~= (dv + seq!['/']) + renamed_path_from(Seq::empty(), pv@.skip(i + 1), pairs@));
            }
        } else {
            seg.push(pv[i]);
            proof {
                assert(rest[0] == pv@[i as int]);
                assert(rest.skip(1) =~= pv@.skip(i + 1));
            }
        }
        i = i + 1;
    }
    let done = apply_pairs_chars(seg, pairs);
    let ghost pre = out@;
    let ghost dv = done@;
    let mut j: usize = 0;
    while j < done.len()
        invariant
            0 <= j <= done@.len(),
            done@ == dv,
            out@ == pre + dv.take(j as int),
        decreases done@.len() - j,
    {
        out.push(done[j]);
        proof {
            assert((pre + dv.take(j as int)).push(dv[j as int]) =~= pre + dv.take(j + 1));
        }
        j = j + 1;
    }
    proof {
        assert(pv@.skip(pv@.len() as int) =~= Seq::<char>::empty());
        assert(dv.take(dv.len() as int) =~= dv);
    }
    string_from_chars(&out)
}

} // verus!

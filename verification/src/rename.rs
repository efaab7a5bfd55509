//! Bottom-up renaming: basename rewriting and the ordered rename plan.
//!
//! Renaming a directory before its children would invalidate the children's
//! stored paths, so the plan processes the walked entries in strictly
//! reverse discovery order: with a walk that yields parents before their
//! descendants, every entry is renamed only after all of its descendants.

use vstd::prelude::*;
use vstd::string::StringExecFns;
use crate::paths::{basename_of, parent_of, rename_path_segments};
use crate::rules::{WordPair, applied, apply_pairs_chars};
use crate::strings::{chars_of, string_from_chars};

verus! {

/// One planned rename: the entry now at `from` is to be moved to `to`,
/// which differs from `from` in the basename alone.
pub struct RenameOp {
    /// The path the entry holds when the plan step runs.
    pub from: String,
    /// The same path with the basename rewritten by the rules.
    pub to: String,
}

impl RenameOp {
    /// Whether the step changes anything: equal paths are a no-op and need
    /// no rename call.
    pub fn changes(&self) -> (r: bool)
        ensures
            r == (self.from@ != self.to@),
    {
        !(self.from == self.to)
    }
}

/// The rename service: rewrites basenames by the rule list and plans the
/// bottom-up rename pass.
pub struct Renamer;

impl Renamer {
    /// A basename rewritten by every rule in order, each rule's one-pass
    /// replacement over the previous rule's output — the same sequential
    /// semantics as content replacement.
    pub fn rewrite_name(name: &str, pairs: &[WordPair]) -> (r: String)
        ensures
            r@ == applied(name@, pairs@),
    {
        let nv = chars_of(name);
        let rv = apply_pairs_chars(nv, pairs);
        string_from_chars(&rv)
    }

    /// The rename plan for walked entries, given in discovery order
    /// (parents before descendants): one step per entry, in exactly the
    /// reverse order, each keeping the entry's parent part and rewriting
    /// its basename. With descendants renamed first, every step's `from`
    /// path is still valid when the step runs.
    pub fn plan_renames(entries: &Vec<String>, pairs: &[WordPair]) -> (r: Vec<RenameOp>)
        ensures
            r@.len() == entries@.len(),
            forall|i: int| 0 <= i < r@.len() ==> {
                let p = entries@[entries@.len() - 1 - i]@;
                (#[trigger] r@[i]).from@ == p
                && r@[i].to@ == parent_of(p) + applied(basename_of(p), pairs@)
            },
    {
        let mut r: Vec<RenameOp> = Vec::new();
        let n = entries.len();
        let mut i: usize = 0;
        while i < n
            invariant
                0 <= i <= n,
                n == entries@.len(),
                r@.len() == i,
                forall|j: int| 0 <= j < i ==> {
                    let p = entries@[entries@.len() - 1 - j]@;
                    (#[trigger] r@[j]).from@ == p
                    && r@[j].to@ == parent_of(p) + applied(basename_of(p), pairs@)
                },
            decreases n - i,
        {
            let src = &entries[n - 1 - i];
            let pv = chars_of(src.as_str());
            let cut = crate::paths::split_basename(&pv);
            let parent = cut.0;
            let base = cut.1;
            let newbase = apply_pairs_chars(base, pairs);
            let mut tov = parent;
            let mut j: usize = 0;
            let ghost pv0 = tov@;
            let ghost nb = newbase@;
            while j < newbase.len()
                invariant
                    0 <= j <= newbase@.len(),
                    newbase@ == nb,
                    tov@ == pv0 + nb.take(j as int),
                decreases newbase@.len() - j,
            {
                tov.push(newbase[j]);
                proof {
                    assert((pv0 + nb.take(j as int)).push(nb[j as int]) =~= pv0 + nb.take(j + 1));
                }
                j = j + 1;
            }
            proof {
                assert(nb.take(nb.len() as int) =~= nb);
            }
            let op = RenameOp {
                from: String::from_str(src.as_str()),
                to: string_from_chars(&tov),
            };
            r.push(op);
            i = i + 1;
        }
        r
    }

    /// The path an entry ends up under once the whole plan has run: every
    /// `/`-separated segment rewritten by the rules.
    pub fn final_path(path: &str, pairs: &[WordPair]) -> (r: String)
        ensures
            r@ == crate::paths::renamed_path(path@, pairs@),
    {
        rename_path_segments(path, pairs)
    }
}

} // verus!

//! The ignored-extension predicate: which paths count as binary or opaque
//! and are skipped for content operations. The extension table is injected
//! configuration, dotted and lowercase, compound extensions included.

use vstd::prelude::*;
use crate::paths::{basename_of, basename_chars};
use crate::strings::{chars_of, string_from_chars, to_lower, lower_of};
use crate::text::matches_at;

verus! {

/// Whether the lowercased file name `lname` ends in the dotted extension
/// `ext`. The extension must be a proper suffix: a name that is nothing but
/// the extension (a dotfile such as `.gz`) has no extension and never
/// matches.
pub open spec fn ext_matches(lname: Seq<char>, ext: Seq<char>) -> bool {
    ext.len() < lname.len() && lname.skip(lname.len() - ext.len()) == ext
}

/// Whether `ext` is a proper dotted suffix of `lname`.
fn ext_match_exec(lname: &Vec<char>, ext: &Vec<char>) -> (r: bool)
    ensures
        r == ext_matches(lname@, ext@),
{
    if ext.len() >= lname.len() {
        return false;
    }
    let at = lname.len() - ext.len();
    let m = matches_at(lname, ext, at);
    proof {
        assert(lname@.subrange(at as int, at + ext@.len()) =~= lname@.skip(lname@.len() - ext@.len()));
    }
    m
}

/// Classifies paths as binary or opaque by their extension; such paths are
/// skipped for content reads and rewrites, never for copying or renaming.
pub struct FileManager {
    ignored_exts: Vec<String>,
}

impl FileManager {
    /// The configured extension table, as character sequences.
    pub closed spec fn exts(self) -> Seq<Seq<char>> {
        self.ignored_exts@.map_values(|e: String| e@)
    }

    /// Whether some configured extension is a proper dotted suffix of the
    /// path's lowercased file name.
    pub open spec fn is_ignored_spec(self, path: Seq<char>) -> bool {
        exists|k: int|
            0 <= k < self.exts().len() && ext_matches(lower_of(basename_of(path)), self.exts()[k])
    }

    /// Creates a manager with the extensions to ignore, each dotted and
    /// lowercase (`.gz`, `.tar.gz`).
    pub fn new(ignored_exts: Vec<String>) -> (r: FileManager)
        ensures
            r.exts() == ignored_exts@.map_values(|e: String| e@),
    {
        FileManager { ignored_exts }
    }

    /// Whether `path` is to be skipped for content operations: its file
    /// name, lowercased, ends in one of the ignored extensions. A name
    /// without an extension is never ignored.
    pub fn is_ignored(&self, path: &str) -> (r: bool)
        ensures
            r == self.is_ignored_spec(path@),
    {
        let pv = chars_of(path);
        let bn = basename_chars(&pv);
        let bs = string_from_chars(&bn);
        let low = to_lower(bs.as_str());
        let lv = chars_of(low.as_str());
        let mut k: usize = 0;
        while k < self.ignored_exts.len()
            invariant
                0 <= k <= self.exts().len(),
                self.exts().len() == self.ignored_exts@.len(),
                lv@ == lower_of(basename_of(path@)),
                forall|j: int| 0 <= j < k ==> !ext_matches(lv@, self.exts()[j]),
            decreases self.exts().len() - k,
        {
            let ev = chars_of(self.ignored_exts[k].as_str());
            if ext_match_exec(&lv, &ev) {
                proof {
                    assert(self.exts()[k as int] == self.ignored_exts@[k as int]@);
                }
                return true;
            }
            k = k + 1;
        }
        false
    }
}

} // verus!

//! The tree-level model of the two pipelines: given the entries a walk
//! found, the transformation pass rewrites contents and paths and counts
//! the modified files, and the diagnostic pass produces the dry-run report.
//! Both are pure functions of the walked entries; the filesystem shell
//! around them does the walking, reading and writing.

use vstd::prelude::*;
use crate::diagnostic::{DiagnosticEntry, MatchInfo, dir_matches, file_matches};
use crate::ignore::FileManager;
use crate::paths::renamed_path;
use crate::rename::Renamer;
use crate::rules::{WordPair, TextService, applied, any_match};

verus! {

/// One filesystem object under the walked root, as the shell reports it to
/// the engine.
pub struct TreeEntry {
    /// Path relative to the walk root, `/`-separated.
    pub rel_path: String,
    /// The entry's own name: its last path segment.
    pub name: String,
    /// Whether the entry is a directory.
    pub is_dir: bool,
    /// A file's content when it was readable; `None` for directories and
    /// for unreadable files.
    pub content: Option<String>,
}

/// The match records diagnosis reports for one entry: name presence for a
/// directory, content counts for a readable file that is not ignored, and
/// nothing (an empty-content scan) for the rest.
pub open spec fn entry_matches(e: TreeEntry, pairs: Seq<WordPair>, fm: FileManager) -> Seq<MatchInfo> {
    if e.is_dir {
        dir_matches(e.name@, pairs)
    } else if fm.is_ignored_spec(e.rel_path@) || e.content is None {
        file_matches(Seq::empty(), pairs)
    } else {
        file_matches(e.content->0@, pairs)
    }
}

/// Whether the transformation counts `e` as a modified file: a readable,
/// not ignored file whose original content holds at least one rule's `old`
/// string.
pub open spec fn is_modified(e: TreeEntry, pairs: Seq<WordPair>, fm: FileManager) -> bool {
    &&& !e.is_dir
    &&& e.content is Some
    &&& !fm.is_ignored_spec(e.rel_path@)
    &&& any_match(e.content->0@, pairs)
}

/// How many entries the transformation counts as modified.
pub open spec fn modified_count(es: Seq<TreeEntry>, pairs: Seq<WordPair>, fm: FileManager) -> nat
    decreases es.len(),
{
    if es.len() == 0 {
        0
    } else {
        (if is_modified(es[0], pairs, fm) {
            1nat
        } else {
            0nat
        }) + modified_count(es.skip(1), pairs, fm)
    }
}

/// Counting one more entry adds its own contribution.
proof fn lemma_modified_count_push(es: Seq<TreeEntry>, pairs: Seq<WordPair>, fm: FileManager, e: TreeEntry)
    ensures
        modified_count(es.push(e), pairs, fm) == modified_count(es, pairs, fm)
            + (if is_modified(e, pairs, fm) { 1nat } else { 0nat }),
    decreases es.len(),
{
    if es.len() == 0 {
        assert(es.push(e)[0] == e);
        assert(es.push(e).skip(1) =~= Seq::<TreeEntry>::empty());
        assert(modified_count(Seq::<TreeEntry>::empty(), pairs, fm) == 0);
        assert(modified_count(es.push(e), pairs, fm)
            == (if is_modified(e, pairs, fm) { 1nat } else { 0nat })
                + modified_count(Seq::<TreeEntry>::empty(), pairs, fm));
        assert(modified_count(es, pairs, fm) == 0);
    } else {
        assert(es.push(e)[0] == es[0]);
        assert(es.push(e).skip(1) =~= es.skip(1).push(e));
        lemma_modified_count_push(es.skip(1), pairs, fm, e);
        assert(modified_count(es.push(e), pairs, fm)
            == (if is_modified(es[0], pairs, fm) { 1nat } else { 0nat })
                + modified_count(es.skip(1).push(e), pairs, fm));
        assert(modified_count(es, pairs, fm)
            == (if is_modified(es[0], pairs, fm) { 1nat } else { 0nat })
                + modified_count(es.skip(1), pairs, fm));
    }
}

/// Whether an entry is a file open to content operations: not a directory
/// and not ignored.
pub open spec fn is_eligible(e: TreeEntry, fm: FileManager) -> bool {
    !e.is_dir && !fm.is_ignored_spec(e.rel_path@)
}

/// How many of the walked entries are eligible files.
pub open spec fn eligible_count(es: Seq<TreeEntry>, fm: FileManager) -> nat
    decreases es.len(),
{
    if es.len() == 0 {
        0
    } else {
        (if is_eligible(es[0], fm) {
            1nat
        } else {
            0nat
        }) + eligible_count(es.skip(1), fm)
    }
}

/// Counting one more entry adds its own contribution.
proof fn lemma_eligible_count_push(es: Seq<TreeEntry>, fm: FileManager, e: TreeEntry)
    ensures
        eligible_count(es.push(e), fm) == eligible_count(es, fm)
            + (if is_eligible(e, fm) { 1nat } else { 0nat }),
    decreases es.len(),
{
    if es.len() == 0 {
        assert(es.push(e)[0] == e);
        assert(es.push(e).skip(1) =~= Seq::<TreeEntry>::empty());
        assert(eligible_count(Seq::<TreeEntry>::empty(), fm) == 0);
        assert(eligible_count(es.push(e), fm)
            == (if is_eligible(e, fm) { 1nat } else { 0nat })
                + eligible_count(Seq::<TreeEntry>::empty(), fm));
        assert(eligible_count(es, fm) == 0);
    } else {
        assert(es.push(e)[0] == es[0]);
        assert(es.push(e).skip(1) =~= es.skip(1).push(e));
        lemma_eligible_count_push(es.skip(1), fm, e);
        assert(eligible_count(es.push(e), fm)
            == (if is_eligible(es[0], fm) { 1nat } else { 0nat })
                + eligible_count(es.skip(1).push(e), fm));
        assert(eligible_count(es, fm)
            == (if is_eligible(es[0], fm) { 1nat } else { 0nat })
                + eligible_count(es.skip(1), fm));
    }
}

impl FileManager {
    /// How many of the walked entries are files open to content
    /// operations: not directories and not ignored.
    pub fn count_eligible(&self, entries: &Vec<TreeEntry>) -> (r: usize)
        ensures
            r == eligible_count(entries@, *self),
    {
        let mut cnt: usize = 0;
        let mut i: usize = 0;
        proof {
            assert(entries@.take(0) =~= Seq::<TreeEntry>::empty());
        }
        while i < entries.len()
            invariant
                0 <= i <= entries@.len(),
                cnt <= i,
                cnt == eligible_count(entries@.take(i as int), *self),
            decreases entries@.len() - i,
        {
            let e = &entries[i];
            if !e.is_dir && !self.is_ignored(e.rel_path.as_str()) {
                cnt = cnt + 1;
            }
            proof {
                assert(entries@.take(i + 1) =~= entries@.take(i as int).push(entries@[i as int]));
                lemma_eligible_count_push(entries@.take(i as int), *self, entries@[i as int]);
            }
            i = i + 1;
        }
        proof {
            assert(entries@.take(entries@.len() as int) =~= entries@);
        }
        cnt
    }
}

/// A copy of an optional string.
fn clone_content(c: &Option<String>) -> (r: Option<String>)
    ensures
        r == *c,
{
    match c {
        Some(s) => Some(s.clone()),
        None => None,
    }
}

/// The transformation pass over the walked entries: every readable,
/// not ignored file's content is rewritten by the rules; with renaming on,
/// every entry's path has each of its segments rewritten, the effect
/// bottom-up renaming has on the finished tree. Returns the transformed
/// entries, in walk order, and how many files counted as modified.
pub fn transform_tree(entries: &Vec<TreeEntry>, pairs: &[WordPair], rename: bool, fm: &FileManager) -> (r: (
    Vec<TreeEntry>,
    usize,
))
    ensures
        r.0@.len() == entries@.len(),
        forall|i: int| 0 <= i < entries@.len() ==> {
            let e = entries@[i];
            let t = #[trigger] r.0@[i];
            &&& t.is_dir == e.is_dir
            &&& (rename ==> t.rel_path@ == renamed_path(e.rel_path@, pairs@)
                && t.name@ == applied(e.name@, pairs@))
            &&& (!rename ==> t.rel_path == e.rel_path && t.name == e.name)
            &&& (if !e.is_dir && e.content is Some && !fm.is_ignored_spec(e.rel_path@) {
                t.content is Some && t.content->0@ == applied(e.content->0@, pairs@)
            } else {
                t.content == e.content
            })
        },
        r.1 == modified_count(entries@, pairs@, *fm),
{
    let mut out: Vec<TreeEntry> = Vec::new();
    let mut cnt: usize = 0;
    let mut i: usize = 0;
    proof {
        assert(entries@.take(0) =~= Seq::<TreeEntry>::empty());
    }
    while i < entries.len()
        invariant
            0 <= i <= entries@.len(),
            out@.len() == i,
            cnt <= i,
            cnt == modified_count(entries@.take(i as int), pairs@, *fm),
            forall|j: int| 0 <= j < i ==> {
                let e = entries@[j];
                let t = #[trigger] out@[j];
                &&& t.is_dir == e.is_dir
                &&& (rename ==> t.rel_path@ == renamed_path(e.rel_path@, pairs@)
                    && t.name@ == applied(e.name@, pairs@))
                &&& (!rename ==> t.rel_path == e.rel_path && t.name == e.name)
                &&& (if !e.is_dir && e.content is Some && !fm.is_ignored_spec(e.rel_path@) {
                    t.content is Some && t.content->0@ == applied(e.content->0@, pairs@)
                } else {
                    t.content == e.content
                })
            },
        decreases entries@.len() - i,
    {
        let e = &entries[i];
        let new_rel = if rename {
            Renamer::final_path(e.rel_path.as_str(), pairs)
        } else {
            e.rel_path.clone()
        };
        let new_name = if rename {
            Renamer::rewrite_name(e.name.as_str(), pairs)
        } else {
            e.name.clone()
        };
        let ignored = fm.is_ignored(e.rel_path.as_str());
        let mut modified = false;
        let new_content: Option<String>;
        if e.is_dir || ignored {
            new_content = clone_content(&e.content);
        } else {
            match &e.content {
                Some(c) => {
                    modified = TextService::matches_any(c.as_str(), pairs);
                    new_content = Some(TextService::replace_content(c.as_str(), pairs));
                },
                None => {
                    new_content = None;
                },
            }
        }
        if modified {
            cnt = cnt + 1;
        }
        out.push(TreeEntry { rel_path: new_rel, name: new_name, is_dir: e.is_dir, content: new_content });
        proof {
            assert(entries@.take(i + 1) =~= entries@.take(i as int).push(entries@[i as int]));
            lemma_modified_count_push(entries@.take(i as int), pairs@, *fm, entries@[i as int]);
        }
        i = i + 1;
    }
    proof {
        assert(entries@.take(entries@.len() as int) =~= entries@);
    }
    (out, cnt)
}

/// The diagnostic pass over the walked entries: one report entry per walked
/// entry, in walk order, nothing mutated. Ignored and unreadable files are
/// scanned as empty content and so report no matches.
pub fn diagnose_entries(entries: &Vec<TreeEntry>, pairs: &[WordPair], fm: &FileManager) -> (r: Vec<
    DiagnosticEntry,
>)
    ensures
        r@.len() == entries@.len(),
        forall|i: int| 0 <= i < entries@.len() ==> {
            let e = entries@[i];
            let d = #[trigger] r@[i];
            &&& d.path == e.rel_path
            &&& d.is_dir == e.is_dir
            &&& d.matches@ == entry_matches(e, pairs@, *fm)
        },
{
    let mut out: Vec<DiagnosticEntry> = Vec::new();
    let mut i: usize = 0;
    while i < entries.len()
        invariant
            0 <= i <= entries@.len(),
            out@.len() == i,
            forall|j: int| 0 <= j < i ==> {
                let e = entries@[j];
                let d = #[trigger] out@[j];
                &&& d.path == e.rel_path
                &&& d.is_dir == e.is_dir
                &&& d.matches@ == entry_matches(e, pairs@, *fm)
            },
        decreases entries@.len() - i,
    {
        let e = &entries[i];
        let rel = e.rel_path.clone();
        let d: DiagnosticEntry;
        if e.is_dir {
            d = DiagnosticEntry::scan_dir(rel, e.name.as_str(), pairs);
        } else {
            let ignored = fm.is_ignored(e.rel_path.as_str());
            proof {
                reveal_strlit("");
                assert(""@ =~= Seq::<char>::empty());
            }
            if ignored {
                d = DiagnosticEntry::scan_file(rel, "", pairs);
            } else {
                match &e.content {
                    Some(c) => {
                        d = DiagnosticEntry::scan_file(rel, c.as_str(), pairs);
                    },
                    None => {
                        d = DiagnosticEntry::scan_file(rel, "", pairs);
                    },
                }
            }
        }
        out.push(d);
        i = i + 1;
    }
    out
}

} // verus!

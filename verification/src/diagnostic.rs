//! The dry-run report: per entry, which rule terms occur in a directory's
//! name or in a file's content, and how often. Scanning never mutates
//! anything; it is a pure function of what was read.

use vstd::prelude::*;
use crate::rules::WordPair;
use crate::strings::chars_of;
use crate::text::{contains_sub, occ_count, has_match, count_matches};

verus! {

/// One found term. `count` is `None` for a term found in a directory name
/// (presence only) and `Some(n)` for a term found `n` times in a file's
/// content.
pub struct MatchInfo {
    /// The rule's `old` string, as configured.
    pub term: String,
    /// Occurrence count for file content, `None` for a directory name.
    pub count: Option<usize>,
}

/// The report for one walked entry: its path relative to the scanned root,
/// whether it is a directory, and the terms found in it. Created once,
/// never mutated.
pub struct DiagnosticEntry {
    /// Path relative to the scanned root.
    pub path: String,
    /// Whether the entry is a directory.
    pub is_dir: bool,
    /// The terms found, in rule order.
    pub matches: Vec<MatchInfo>,
}

/// The matches of a directory name: one presence record per rule whose
/// `old` occurs in the name, in rule order.
pub open spec fn dir_matches(name: Seq<char>, pairs: Seq<WordPair>) -> Seq<MatchInfo>
    decreases pairs.len(),
{
    if pairs.len() == 0 {
        Seq::empty()
    } else {
        (if contains_sub(name, pairs[0].old@) {
            seq![MatchInfo { term: pairs[0].old, count: None }]
        } else {
            Seq::empty()
        }) + dir_matches(name, pairs.skip(1))
    }
}

/// The matches of a file's content: one counted record per rule whose `old`
/// occurs at least once, in rule order.
pub open spec fn file_matches(content: Seq<char>, pairs: Seq<WordPair>) -> Seq<MatchInfo>
    decreases pairs.len(),
{
    if pairs.len() == 0 {
        Seq::empty()
    } else {
        (if occ_count(content, pairs[0].old@) > 0 {
            seq![MatchInfo { term: pairs[0].old, count: Some(occ_count(content, pairs[0].old@) as usize) }]
        } else {
            Seq::empty()
        }) + file_matches(content, pairs.skip(1))
    }
}

/// Scanning a rule list with one more rule at its end appends that rule's
/// directory-name record, if any.
proof fn lemma_dir_matches_push(name: Seq<char>, pairs: Seq<WordPair>, p: WordPair)
    ensures
        dir_matches(name, pairs.push(p)) == dir_matches(name, pairs)
            + (if contains_sub(name, p.old@) {
                seq![MatchInfo { term: p.old, count: None }]
            } else {
                Seq::<MatchInfo>::empty()
            }),
    decreases pairs.len(),
{
    let tail = if contains_sub(name, p.old@) {
        seq![MatchInfo { term: p.old, count: None }]
    } else {
        Seq::<MatchInfo>::empty()
    };
    if pairs.len() == 0 {
        assert(pairs.push(p)[0] == p);
        assert(pairs.push(p).skip(1) =~= Seq::<WordPair>::empty());
        assert(dir_matches(name, Seq::<WordPair>::empty()) == Seq::<MatchInfo>::empty());
        assert(tail + Seq::<MatchInfo>::empty() =~= tail);
        assert(Seq::<MatchInfo>::empty() + tail =~= tail);
    } else {
        assert(pairs.push(p)[0] == pairs[0]);
        assert(pairs.push(p).skip(1) =~= pairs.skip(1).push(p));
        lemma_dir_matches_push(name, pairs.skip(1), p);
        let head = if contains_sub(name, pairs[0].old@) {
            seq![MatchInfo { term: pairs[0].old, count: None }]
        } else {
            Seq::<MatchInfo>::empty()
        };
        assert(head + (dir_matches(name, pairs.skip(1)) + tail)
            =~= (head + dir_matches(name, pairs.skip(1))) + tail);
    }
}

/// Scanning a rule list with one more rule at its end appends that rule's
/// content record, if any.
proof fn lemma_file_matches_push(content: Seq<char>, pairs: Seq<WordPair>, p: WordPair)
    ensures
        file_matches(content, pairs.push(p)) == file_matches(content, pairs)
            + (if occ_count(content, p.old@) > 0 {
                seq![MatchInfo { term: p.old, count: Some(occ_count(content, p.old@) as usize) }]
            } else {
                Seq::<MatchInfo>::empty()
            }),
    decreases pairs.len(),
{
    let tail = if occ_count(content, p.old@) > 0 {
        seq![MatchInfo { term: p.old, count: Some(occ_count(content, p.old@) as usize) }]
    } else {
        Seq::<MatchInfo>::empty()
    };
    if pairs.len() == 0 {
        assert(pairs.push(p)[0] == p);
        assert(pairs.push(p).skip(1) =~= Seq::<WordPair>::empty());
        assert(file_matches(content, Seq::<WordPair>::empty()) == Seq::<MatchInfo>::empty());
        assert(tail + Seq::<MatchInfo>::empty() =~= tail);
        assert(Seq::<MatchInfo>::empty() + tail =~= tail);
    } else {
        assert(pairs.push(p)[0] == pairs[0]);
        assert(pairs.push(p).skip(1) =~= pairs.skip(1).push(p));
        lemma_file_matches_push(content, pairs.skip(1), p);
        let head = if occ_count(content, pairs[0].old@) > 0 {
            seq![MatchInfo { term: pairs[0].old, count: Some(occ_count(content, pairs[0].old@) as usize) }]
        } else {
            Seq::<MatchInfo>::empty()
        };
        assert(head + (file_matches(content, pairs.skip(1)) + tail)
            =~= (head + file_matches(content, pairs.skip(1))) + tail);
    }
}

impl DiagnosticEntry {
    /// The report of one directory: a presence record for every rule whose
    /// `old` occurs in the directory's name, case-sensitive, no counting.
    pub fn scan_dir(rel_path: String, name: &str, pairs: &[WordPair]) -> (r: DiagnosticEntry)
        ensures
            r.path == rel_path,
            r.is_dir,
            r.matches@ == dir_matches(name@, pairs@),
    {
        let nv = chars_of(name);
        let mut found: Vec<MatchInfo> = Vec::new();
        let mut k: usize = 0;
        proof {
            assert(pairs@.take(0) =~= Seq::<WordPair>::empty());
            assert(found@ =~= dir_matches(name@, pairs@.take(0)));
        }
        while k < pairs.len()
            invariant
                0 <= k <= pairs@.len(),
                nv@ == name@,
                found@ == dir_matches(name@, pairs@.take(k as int)),
            decreases pairs@.len() - k,
        {
            let ghost pre = found@;
            let oldc = chars_of(pairs[k].old.as_str());
            if has_match(&nv, &oldc) {
                found.push(MatchInfo { term: pairs[k].old.clone(), count: None });
                proof {
                    assert(found@ =~= pre + seq![MatchInfo { term: pairs@[k as int].old, count: None }]);
                }
            } else {
                proof {
                    assert(found@ =~= pre + Seq::<MatchInfo>::empty());
                }
            }
            proof {
                assert(pairs@.take(k + 1) =~= pairs@.take(k as int).push(pairs@[k as int]));
                lemma_dir_matches_push(name@, pairs@.take(k as int), pairs@[k as int]);
            }
            k = k + 1;
        }
        proof {
            assert(pairs@.take(pairs@.len() as int) =~= pairs@);
        }
        DiagnosticEntry { path: rel_path, is_dir: true, matches: found }
    }

    /// The report of one file: a counted record for every rule whose `old`
    /// occurs in the content at least once. An unreadable or skipped file
    /// is scanned with empty content and so reports no matches.
    pub fn scan_file(rel_path: String, content: &str, pairs: &[WordPair]) -> (r: DiagnosticEntry)
        ensures
            r.path == rel_path,
            !r.is_dir,
            r.matches@ == file_matches(content@, pairs@),
    {
        let cv = chars_of(content);
        let mut found: Vec<MatchInfo> = Vec::new();
        let mut k: usize = 0;
        proof {
            assert(pairs@.take(0) =~= Seq::<WordPair>::empty());
            assert(found@ =~= file_matches(content@, pairs@.take(0)));
        }
        while k < pairs.len()
            invariant
                0 <= k <= pairs@.len(),
                cv@ == content@,
                found@ == file_matches(content@, pairs@.take(k as int)),
            decreases pairs@.len() - k,
        {
            let ghost pre = found@;
            let oldc = chars_of(pairs[k].old.as_str());
            let cnt = count_matches(&cv, &oldc);
            if cnt > 0 {
                found.push(MatchInfo { term: pairs[k].old.clone(), count: Some(cnt) });
                proof {
                    assert(found@ =~= pre + seq![
                        MatchInfo {
                            term: pairs@[k as int].old,
                            count: Some(occ_count(content@, pairs@[k as int].old@) as usize),
                        },
                    ]);
                }
            } else {
                proof {
                    assert(found@ =~= pre + Seq::<MatchInfo>::empty());
                }
            }
            proof {
                assert(pairs@.take(k + 1) =~= pairs@.take(k as int).push(pairs@[k as int]));
                lemma_file_matches_push(content@, pairs@.take(k as int), pairs@[k as int]);
            }
            k = k + 1;
        }
        proof {
            assert(pairs@.take(pairs@.len() as int) =~= pairs@);
        }
        DiagnosticEntry { path: rel_path, is_dir: false, matches: found }
    }
}

/// Diagnosis is a pure function of what was read: scanning equal names or
/// equal contents with equal rules yields equal match lists, so diagnosing
/// an unmodified tree twice yields identical reports.
pub proof fn lemma_diagnose_deterministic(
    n1: Seq<char>,
    n2: Seq<char>,
    c1: Seq<char>,
    c2: Seq<char>,
    ps1: Seq<WordPair>,
    ps2: Seq<WordPair>,
)
    requires
        n1 == n2,
        c1 == c2,
        ps1 == ps2,
    ensures
        dir_matches(n1, ps1) == dir_matches(n2, ps2),
        file_matches(c1, ps1) == file_matches(c2, ps2),
{
}

} // verus!

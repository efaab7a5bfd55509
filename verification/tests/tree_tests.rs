use robber::diagnostic::DiagnosticEntry;
use robber::ignore::FileManager;
use robber::rules::WordPair;
use robber::tree::{diagnose_entries, transform_tree, TreeEntry};

fn pair(old: &str, new: &str) -> WordPair {
    WordPair { old: old.to_string(), new: new.to_string() }
}

fn dir(rel: &str, name: &str) -> TreeEntry {
    TreeEntry { rel_path: rel.to_string(), name: name.to_string(), is_dir: true, content: None }
}

fn file(rel: &str, name: &str, content: &str) -> TreeEntry {
    TreeEntry {
        rel_path: rel.to_string(),
        name: name.to_string(),
        is_dir: false,
        content: Some(content.to_string()),
    }
}

fn no_ignores() -> FileManager {
    FileManager::new(vec![])
}

#[test]
fn transform_end_to_end() {
    let entries = vec![
        file("a.txt", "a.txt", "hello old world"),
        dir("old_dir", "old_dir"),
        file("old_dir/b.txt", "b.txt", "old"),
    ];
    let pairs = vec![pair("old", "new")];
    let fm = no_ignores();
    let (out, modified) = transform_tree(&entries, &pairs, true, &fm);
    assert_eq!(modified, 2);
    assert_eq!(out.len(), 3);
    assert_eq!(out[0].rel_path, "a.txt");
    assert_eq!(out[0].content.as_deref(), Some("hello new world"));
    assert_eq!(out[1].rel_path, "new_dir");
    assert!(out[1].is_dir);
    assert_eq!(out[2].rel_path, "new_dir/b.txt");
    assert_eq!(out[2].name, "b.txt");
    assert_eq!(out[2].content.as_deref(), Some("new"));
}

#[test]
fn transform_without_rename_keeps_paths() {
    let entries = vec![file("old_dir/b.txt", "b.txt", "old")];
    let pairs = vec![pair("old", "new")];
    let fm = no_ignores();
    let (out, modified) = transform_tree(&entries, &pairs, false, &fm);
    assert_eq!(modified, 1);
    assert_eq!(out[0].rel_path, "old_dir/b.txt");
    assert_eq!(out[0].content.as_deref(), Some("new"));
}

#[test]
fn transform_skips_ignored_and_unreadable() {
    let entries = vec![
        file("a.png", "a.png", "old"),
        TreeEntry {
            rel_path: "locked.txt".to_string(),
            name: "locked.txt".to_string(),
            is_dir: false,
            content: None,
        },
        file("b.txt", "b.txt", "old"),
    ];
    let pairs = vec![pair("old", "new")];
    let fm = FileManager::new(vec![".png".to_string()]);
    let (out, modified) = transform_tree(&entries, &pairs, false, &fm);
    assert_eq!(modified, 1);
    assert_eq!(out[0].content.as_deref(), Some("old"));
    assert_eq!(out[1].content, None);
    assert_eq!(out[2].content.as_deref(), Some("new"));
}

#[test]
fn transform_counts_only_matching_files() {
    let entries = vec![file("a.txt", "a.txt", "nothing"), file("b.txt", "b.txt", "old")];
    let pairs = vec![pair("old", "new")];
    let fm = no_ignores();
    let (out, modified) = transform_tree(&entries, &pairs, false, &fm);
    assert_eq!(modified, 1);
    assert_eq!(out[0].content.as_deref(), Some("nothing"));
}

#[test]
fn diagnose_counts_and_presence() {
    let entries = vec![
        dir("old_dir", "old_dir"),
        file("old_dir/b.txt", "b.txt", "old old old"),
        file("clean.txt", "clean.txt", "nothing"),
    ];
    let pairs = vec![pair("old", "new")];
    let fm = no_ignores();
    let report = diagnose_entries(&entries, &pairs, &fm);
    assert_eq!(report.len(), 3);
    assert!(report[0].is_dir);
    assert_eq!(report[0].matches.len(), 1);
    assert_eq!(report[0].matches[0].term, "old");
    assert_eq!(report[0].matches[0].count, None);
    assert!(!report[1].is_dir);
    assert_eq!(report[1].matches.len(), 1);
    assert_eq!(report[1].matches[0].count, Some(3));
    assert!(report[2].matches.is_empty());
}

#[test]
fn diagnose_counts_non_overlapping() {
    let entries = vec![file("a.txt", "a.txt", "aaa")];
    let pairs = vec![pair("aa", "x")];
    let fm = no_ignores();
    let report = diagnose_entries(&entries, &pairs, &fm);
    assert_eq!(report[0].matches.len(), 1);
    assert_eq!(report[0].matches[0].count, Some(1));
}

#[test]
fn diagnose_treats_ignored_file_as_empty() {
    let entries = vec![file("a.png", "a.png", "old")];
    let pairs = vec![pair("old", "new")];
    let fm = FileManager::new(vec![".png".to_string()]);
    let report = diagnose_entries(&entries, &pairs, &fm);
    assert!(report[0].matches.is_empty());
}

#[test]
fn count_eligible_files_only() {
    let entries = vec![
        dir("old_dir", "old_dir"),
        file("old_dir/b.txt", "b.txt", "old"),
        file("image.png", "image.png", ""),
        file("a.txt", "a.txt", "x"),
    ];
    let fm = FileManager::new(vec![".png".to_string()]);
    assert_eq!(fm.count_eligible(&entries), 2);
}

fn same_report(a: &[DiagnosticEntry], b: &[DiagnosticEntry]) -> bool {
    a.len() == b.len()
        && a.iter().zip(b.iter()).all(|(x, y)| {
            x.path == y.path
                && x.is_dir == y.is_dir
                && x.matches.len() == y.matches.len()
                && x.matches
                    .iter()
                    .zip(y.matches.iter())
                    .all(|(m, n)| m.term == n.term && m.count == n.count)
        })
}

#[test]
fn diagnose_twice_is_identical_and_mutates_nothing() {
    let entries = vec![
        dir("old_dir", "old_dir"),
        file("old_dir/b.txt", "b.txt", "old text old"),
    ];
    let pairs = vec![pair("old", "new")];
    let fm = no_ignores();
    let first = diagnose_entries(&entries, &pairs, &fm);
    let second = diagnose_entries(&entries, &pairs, &fm);
    assert!(same_report(&first, &second));
    // The scanned entries themselves are untouched.
    assert_eq!(entries[1].content.as_deref(), Some("old text old"));
    assert_eq!(entries[0].rel_path, "old_dir");
}

use robber::rename::Renamer;
use robber::rules::WordPair;
use std::collections::BTreeMap;

fn pair(old: &str, new: &str) -> WordPair {
    WordPair { old: old.to_string(), new: new.to_string() }
}

#[test]
fn rewrite_name_applies_rules_in_order() {
    let pairs = vec![pair("old", "new")];
    assert_eq!(Renamer::rewrite_name("child_old.txt", &pairs), "child_new.txt");
    assert_eq!(Renamer::rewrite_name("untouched", &pairs), "untouched");
}

#[test]
fn plan_is_reverse_of_discovery_order() {
    let pairs = vec![pair("old", "new")];
    let entries = vec!["parent_old".to_string(), "parent_old/child_old.txt".to_string()];
    let plan = Renamer::plan_renames(&entries, &pairs);
    assert_eq!(plan.len(), 2);
    // The child, discovered last, is renamed strictly before its parent.
    assert_eq!(plan[0].from, "parent_old/child_old.txt");
    assert_eq!(plan[0].to, "parent_old/child_new.txt");
    assert_eq!(plan[1].from, "parent_old");
    assert_eq!(plan[1].to, "parent_new");
    assert!(plan[0].changes());
    assert!(plan[1].changes());
}

#[test]
fn plan_replayed_renames_nested_path() {
    // Replay the plan against a filesystem stub: a map from path to
    // content, where renaming a directory moves everything under it.
    let pairs = vec![pair("old", "new")];
    let entries = vec!["parent_old".to_string(), "parent_old/child_old.txt".to_string()];
    let plan = Renamer::plan_renames(&entries, &pairs);

    let mut tree: BTreeMap<String, &str> = BTreeMap::new();
    tree.insert("parent_old".to_string(), "<dir>");
    tree.insert("parent_old/child_old.txt".to_string(), "data");
    for op in &plan {
        if !op.changes() {
            continue;
        }
        // The source path must still exist when its step runs: that is the
        // bottom-up guarantee.
        assert!(tree.contains_key(&op.from), "stale path {}", op.from);
        let moved: Vec<(String, &str)> = tree
            .iter()
            .filter(|(p, _)| **p == op.from || p.starts_with(&format!("{}/", op.from)))
            .map(|(p, c)| (p.clone(), *c))
            .collect();
        for (p, c) in moved {
            tree.remove(&p);
            let suffix = &p[op.from.len()..];
            tree.insert(format!("{}{}", op.to, suffix), c);
        }
    }
    let paths: Vec<&String> = tree.keys().collect();
    assert_eq!(paths, vec!["parent_new", "parent_new/child_new.txt"]);
    assert_eq!(tree["parent_new/child_new.txt"], "data");
}

#[test]
fn plan_keeps_unchanged_entries_as_noops() {
    let pairs = vec![pair("old", "new")];
    let entries = vec!["keep".to_string(), "keep/file.txt".to_string()];
    let plan = Renamer::plan_renames(&entries, &pairs);
    assert_eq!(plan.len(), 2);
    assert!(!plan[0].changes());
    assert!(!plan[1].changes());
}

#[test]
fn final_path_rewrites_every_segment() {
    let pairs = vec![pair("old", "new")];
    assert_eq!(Renamer::final_path("parent_old/child_old.txt", &pairs), "parent_new/child_new.txt");
    assert_eq!(Renamer::final_path("a/b/c", &pairs), "a/b/c");
    assert_eq!(Renamer::final_path("old_dir", &pairs), "new_dir");
}

#[test]
fn rename_rules_cascade_like_content_rules() {
    let pairs = vec![pair("A", "B"), pair("B", "C")];
    assert_eq!(Renamer::rewrite_name("A", &pairs), "C");
}

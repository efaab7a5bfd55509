use robber::rules::{TextService, WordPair};

fn pair(old: &str, new: &str) -> WordPair {
    WordPair { old: old.to_string(), new: new.to_string() }
}

#[test]
fn expand_variants_three_case_forms() {
    let pairs = vec![pair("Foo", "Bar")];
    let out = TextService::expand_variants(&pairs);
    assert_eq!(out.len(), 3);
    assert_eq!(out[0].old, "Foo");
    assert_eq!(out[0].new, "Bar");
    assert_eq!(out[1].old, "foo");
    assert_eq!(out[1].new, "bar");
    assert_eq!(out[2].old, "FOO");
    assert_eq!(out[2].new, "BAR");
}

#[test]
fn expand_variants_first_seen_form_kept() {
    let pairs = vec![pair("foo", "bar"), pair("Foo", "Bar")];
    let out = TextService::expand_variants(&pairs);
    // First rule contributes foo->bar (identity and lowercase coincide) and
    // FOO->BAR; the second only adds the mixed-case form, at the end.
    assert_eq!(out.len(), 3);
    assert_eq!(out[0].old, "foo");
    assert_eq!(out[0].new, "bar");
    assert_eq!(out[1].old, "FOO");
    assert_eq!(out[1].new, "BAR");
    assert_eq!(out[2].old, "Foo");
    assert_eq!(out[2].new, "Bar");
}

#[test]
fn expand_variants_no_duplicates() {
    let pairs = vec![pair("abc", "xyz")];
    let out = TextService::expand_variants(&pairs);
    // All three case forms of an all-lowercase rule collapse to two.
    assert_eq!(out.len(), 2);
    assert_eq!(out[0].old, "abc");
    assert_eq!(out[0].new, "xyz");
    assert_eq!(out[1].old, "ABC");
    assert_eq!(out[1].new, "XYZ");
}

#[test]
fn expand_variants_empty_input() {
    let pairs: Vec<WordPair> = vec![];
    let out = TextService::expand_variants(&pairs);
    assert!(out.is_empty());
}

#[test]
fn replace_applies_rules_sequentially() {
    // Rule order cascades: the first rule's output feeds the second rule.
    let pairs = vec![pair("A", "B"), pair("B", "C")];
    let out = TextService::replace_content("A", &pairs);
    assert_eq!(out, "C");
}

#[test]
fn replace_pass_is_single_left_to_right() {
    // One pass can create new matches for *later* rules only, never for
    // itself: replacing ab->b in "aab" yields "ab", not "b".
    let pairs = vec![pair("ab", "b")];
    let out = TextService::replace_content("aab", &pairs);
    assert_eq!(out, "ab");
}

#[test]
fn replace_all_occurrences() {
    let pairs = vec![pair("old", "new")];
    let out = TextService::replace_content("old old old", &pairs);
    assert_eq!(out, "new new new");
}

#[test]
fn replace_empty_old_is_noop() {
    let pairs = vec![pair("", "x")];
    let out = TextService::replace_content("abc", &pairs);
    assert_eq!(out, "abc");
}

#[test]
fn matches_any_pre_check() {
    let pairs = vec![pair("old", "new"), pair("foo", "bar")];
    assert!(TextService::matches_any("some old text", &pairs));
    assert!(TextService::matches_any("foo only", &pairs));
    assert!(!TextService::matches_any("nothing here", &pairs));
    assert!(!TextService::matches_any("", &pairs));
}

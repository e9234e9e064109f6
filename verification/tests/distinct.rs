use contact_crawler::distinct::{contains_string, distinct, extend_distinct, push_distinct};

fn strings(items: &[&str]) -> Vec<String> {
    items.iter().map(|s| s.to_string()).collect()
}

#[test]
fn distinct_keeps_first_occurrences() {
    assert_eq!(distinct(&strings(&["b", "a", "b", "c", "a"])), strings(&["b", "a", "c"]));
    assert_eq!(distinct(&strings(&[])), strings(&[]));
    assert_eq!(distinct(&strings(&["x", "x", "x"])), strings(&["x"]));
}

#[test]
fn distinct_twice_changes_nothing() {
    let once = distinct(&strings(&["b", "a", "b", "c", "a"]));
    assert_eq!(distinct(&once), once);
}

#[test]
fn push_distinct_adds_only_new_strings() {
    let mut items = strings(&["a", "b"]);
    push_distinct(&mut items, "a".to_string());
    assert_eq!(items, strings(&["a", "b"]));
    push_distinct(&mut items, "c".to_string());
    assert_eq!(items, strings(&["a", "b", "c"]));
    push_distinct(&mut items, "".to_string());
    assert_eq!(items, strings(&["a", "b", "c", ""]));
}

#[test]
fn extend_distinct_merges_in_order() {
    let mut items = strings(&["a", "b"]);
    extend_distinct(&mut items, &strings(&["c", "a", "d", "c"]));
    assert_eq!(items, strings(&["a", "b", "c", "d"]));
    extend_distinct(&mut items, &strings(&[]));
    assert_eq!(items, strings(&["a", "b", "c", "d"]));
}

#[test]
fn contains_string_compares_text() {
    let items = strings(&["tel:1", "http://x.com"]);
    assert!(contains_string(&items, &"tel:1".to_string()));
    assert!(!contains_string(&items, &"tel:".to_string()));
    assert!(!contains_string(&Vec::new(), &"".to_string()));
}

//! Sorted label maps.
use netlink_exporter::labels::Labels;

/// However a map was filled, its keys come out in ascending order.
#[test]
fn listing_does_not_depend_on_insertion_order() {
    let a = Labels::new().with("b", "2").with("a", "1").with("c", "3");
    let b = Labels::new().with("c", "3").with("b", "2").with("a", "1");
    assert_eq!(a, b);
    let keys: Vec<&str> = (0..a.len()).map(|i| a.key_at(i)).collect();
    assert_eq!(keys, vec!["a", "b", "c"]);
    assert_eq!(a.value_at(1), "2");
}

#[test]
fn later_value_replaces_earlier() {
    let mut l = Labels::new().with("k", "old");
    l.insert("k".to_owned(), "new".to_owned());
    assert_eq!(l.len(), 1);
    assert_eq!(l.get("k").map(String::as_str), Some("new"));
}

#[test]
fn absent_key_is_not_found() {
    let l = Labels::new().with("k", "v");
    assert!(l.contains_key("k"));
    assert!(!l.contains_key("j"));
    assert_eq!(l.get("j"), None);
    assert!(Labels::new().is_empty());
    assert!(!l.is_empty());
}

/// Keys are ordered by their UTF-8 bytes, not by the language of the reader.
#[test]
fn keys_are_ordered_by_bytes() {
    let l = Labels::new().with("é", "").with("z", "").with("Z", "").with("zz", "");
    let keys: Vec<&str> = (0..l.len()).map(|i| l.key_at(i)).collect();
    assert_eq!(keys, vec!["Z", "z", "zz", "é"]);
}

#[test]
fn clone_is_equal() {
    let l = Labels::new().with("a", "1");
    assert_eq!(l.clone(), l);
}

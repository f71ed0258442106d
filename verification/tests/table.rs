use relay_server::table::{TextMap, TextSet};

#[test]
fn a_table_gives_back_what_was_put_in() {
    let mut t: TextMap<u32> = TextMap::new();
    assert_eq!(t.len(), 0);
    t.insert("a".to_string(), 1);
    t.insert("b".to_string(), 2);
    t.insert("a".to_string(), 3);
    assert_eq!(t.len(), 2);
    assert_eq!(t.get("a"), Some(&3));
    assert_eq!(t.get("b"), Some(&2));
    assert_eq!(t.get("c"), None);
    assert_eq!((t.key_at(0), *t.value_at(0)), ("a", 3));
    assert_eq!(t.remove("a"), Some(3));
    assert_eq!(t.remove("a"), None);
    assert!(!t.contains_key("a"));
    assert!(t.contains_key("b"));
    t.clear();
    assert!(!t.contains_key("b"));
}

#[test]
fn a_set_holds_each_text_once() {
    let mut s = TextSet::new();
    s.insert("x".to_string());
    s.insert("y".to_string());
    s.insert("x".to_string());
    assert_eq!(s.to_vec(), vec!["x".to_string(), "y".to_string()]);
    assert_eq!(s.len(), 2);
    s.remove("x");
    s.remove("z");
    assert!(!s.contains("x"));
    assert!(s.contains("y"));
    s.clear();
    assert_eq!(s.len(), 0);
}

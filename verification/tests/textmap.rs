use rfshare::textmap::TextMap;

#[test]
fn a_map_keeps_one_value_for_a_key() {
    let mut m: TextMap<u64> = TextMap::new();
    assert!(m.get("a").is_none());
    m.insert("a".to_string(), 1);
    m.insert("b".to_string(), 2);
    m.insert("a".to_string(), 3);
    assert_eq!(m.get("a"), Some(&3));
    assert_eq!(m.get("b"), Some(&2));
    assert_eq!(m.entries.len(), 2);
    assert_eq!(m.index_of("b"), Some(1));
    assert_eq!(m.remove("a"), Some(3));
    assert_eq!(m.remove("a"), None);
    assert_eq!(m.get("b"), Some(&2));
}

#[test]
fn a_map_is_extended_by_another() {
    let mut a: TextMap<String> = TextMap::new();
    a.insert("x".to_string(), "1".to_string());
    a.insert("y".to_string(), "2".to_string());
    let mut b: TextMap<String> = TextMap::new();
    b.insert("y".to_string(), "3".to_string());
    b.insert("z".to_string(), "4".to_string());
    a.extend(&b);
    assert_eq!(a.get("x").unwrap(), "1");
    assert_eq!(a.get("y").unwrap(), "3");
    assert_eq!(a.get("z").unwrap(), "4");
    assert_eq!(a.entries.len(), 3);
}

use ghostbay::string_map::StringMap;

#[test]
fn a_read_gives_back_the_last_write() {
    let mut m = StringMap::new();
    assert_eq!(m.len(), 0);
    assert_eq!(m.get("a"), None);
    m.insert("a".to_string(), "1".to_string());
    m.insert("b".to_string(), "2".to_string());
    assert_eq!(m.get("a").map(|s| s.as_str()), Some("1"));
    m.insert("a".to_string(), "3".to_string());
    assert_eq!(m.get("a").map(|s| s.as_str()), Some("3"));
    assert_eq!(m.get("b").map(|s| s.as_str()), Some("2"));
    assert_eq!(m.get("c"), None);
    assert_eq!(m.len(), 2);
}

#[test]
fn entries_keep_the_order_of_first_insertion() {
    let mut m = StringMap::new();
    m.insert("z".to_string(), "1".to_string());
    m.insert("a".to_string(), "2".to_string());
    m.insert("z".to_string(), "3".to_string());
    let (k0, v0) = m.entry(0);
    let (k1, v1) = m.entry(1);
    assert_eq!((k0.as_str(), v0.as_str()), ("z", "3"));
    assert_eq!((k1.as_str(), v1.as_str()), ("a", "2"));
}

#[test]
fn from_pairs_keeps_the_last_value_in_the_first_place() {
    let m = StringMap::from_pairs(vec![
        ("a".to_string(), "1".to_string()),
        ("b".to_string(), "2".to_string()),
        ("a".to_string(), "3".to_string()),
    ]);
    assert_eq!(m.len(), 2);
    assert_eq!(m.get("a").map(|s| s.as_str()), Some("3"));
    assert_eq!(m.get("b").map(|s| s.as_str()), Some("2"));
    let (k0, v0) = m.entry(0);
    assert_eq!((k0.as_str(), v0.as_str()), ("a", "3"));
    let h = ghostbay::api::S3Headers::from_pairs(vec![("host".to_string(), "x".to_string())]);
    assert_eq!(h.headers.get("host").map(|s| s.as_str()), Some("x"));
    assert_eq!(StringMap::from_pairs(vec![]).len(), 0);
}

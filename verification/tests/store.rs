use checksums::HashStore;

#[test]
fn insert_keeps_paths_sorted_and_unique() {
    let mut s = HashStore::new();
    s.insert("b".to_string(), "02".to_string());
    s.insert("a".to_string(), "01".to_string());
    s.insert("c".to_string(), "03".to_string());
    s.insert("b".to_string(), "22".to_string());
    assert_eq!(s.len(), 3);
    assert_eq!(s.path_at(0), "a");
    assert_eq!(s.path_at(1), "b");
    assert_eq!(s.path_at(2), "c");
    assert_eq!(s.hash_at(1), "22");
}

#[test]
fn get_finds_only_present_paths() {
    let mut s = HashStore::new();
    s.insert("x/y".to_string(), "AB".to_string());
    assert_eq!(s.get("x/y").unwrap(), "AB");
    assert!(s.get("x").is_none());
    assert!(s.get("x/y/z").is_none());
}

#[test]
fn remove_drops_only_the_named_path() {
    let mut s = HashStore::new();
    s.insert("a".to_string(), "01".to_string());
    s.insert("b".to_string(), "02".to_string());
    s.remove("a");
    s.remove("missing");
    assert_eq!(s.len(), 1);
    assert!(s.get("a").is_none());
    assert_eq!(s.get("b").unwrap(), "02");
    assert!(!s.is_empty());
    s.remove("b");
    assert!(s.is_empty());
}

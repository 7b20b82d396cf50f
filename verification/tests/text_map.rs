use fcp_rust::text_map::TextMap;

#[test]
fn text_map_insert_get_remove() {
    let mut m: TextMap<u32> = TextMap::new();
    assert!(m.is_empty());
    m.insert("a".to_string(), 1);
    m.insert("b".to_string(), 2);
    m.insert("a".to_string(), 3);
    assert_eq!(m.len(), 2);
    assert_eq!(m.get("a"), Some(&3));
    assert!(m.contains_key("b"));
    m.remove("a");
    assert_eq!(m.get("a"), None);
    assert_eq!(m.len(), 1);
    m.remove("zzz");
    assert_eq!(m.len(), 1);
}

#[test]
fn text_map_retain_at_most() {
    let mut m: TextMap<usize> = TextMap::default();
    m.insert("x".to_string(), 1);
    m.insert("y".to_string(), 5);
    m.insert("z".to_string(), 3);
    m.retain_at_most(3);
    assert_eq!(m.get("x"), Some(&1));
    assert_eq!(m.get("y"), None);
    assert_eq!(m.get("z"), Some(&3));
}

#[test]
fn text_map_entries_in_insertion_order() {
    let mut m: TextMap<u32> = TextMap::new();
    m.insert("b".to_string(), 2);
    m.insert("a".to_string(), 1);
    m.insert("b".to_string(), 5);
    assert_eq!(m.entry_at(0), Some(&("b".to_string(), 5)));
    assert_eq!(m.entry_at(1), Some(&("a".to_string(), 1)));
    assert_eq!(m.entry_at(2), None);
}

use nix_derivation_parser::collections::StringMap;

#[test]
fn new_map_is_empty() {
    let map: StringMap<String> = StringMap::new();
    assert_eq!(map.len(), 0);
    assert!(map.is_empty());
    assert_eq!(map.get("out"), None);
    assert!(!map.contains_key("out"));
}

#[test]
fn insert_keeps_each_key_once() {
    let mut map: StringMap<String> = StringMap::new();
    map.insert("out".to_string(), "first".to_string());
    map.insert("dev".to_string(), "second".to_string());
    map.insert("out".to_string(), "third".to_string());
    assert_eq!(map.len(), 2);
    assert!(!map.is_empty());
    assert_eq!(map.get("out"), Some(&"third".to_string()));
    assert_eq!(map.get("dev"), Some(&"second".to_string()));
    assert_eq!(map.get("man"), None);
    assert!(map.contains_key("dev"));
    assert_eq!(
        map.entries(),
        &vec![("out".to_string(), "third".to_string()), ("dev".to_string(), "second".to_string())]
    );
}

#[test]
fn from_entries_lets_the_last_write_win() {
    let map = StringMap::from_entries(vec![
        ("a".to_string(), "1".to_string()),
        ("b".to_string(), "2".to_string()),
        ("a".to_string(), "3".to_string()),
        ("c".to_string(), "4".to_string()),
        ("b".to_string(), "5".to_string()),
    ]);
    assert_eq!(map.len(), 3);
    assert_eq!(map.get("a"), Some(&"3".to_string()));
    assert_eq!(map.get("b"), Some(&"5".to_string()));
    assert_eq!(map.get("c"), Some(&"4".to_string()));
}

#[test]
fn keys_are_compared_by_their_characters() {
    let mut map: StringMap<String> = StringMap::new();
    map.insert("h\u{e9}".to_string(), "x".to_string());
    assert_eq!(map.get("h\u{e9}"), Some(&"x".to_string()));
    assert_eq!(map.get("he"), None);
    assert_eq!(map.get("h"), None);
    assert_eq!(map.get(""), None);
}

#[test]
fn into_entries_gives_each_key_once_in_first_written_order() {
    let map = StringMap::from_entries(vec![
        ("b".to_string(), "1".to_string()),
        ("a".to_string(), "2".to_string()),
        ("b".to_string(), "3".to_string()),
    ]);
    assert_eq!(
        map.into_entries(),
        vec![("b".to_string(), "3".to_string()), ("a".to_string(), "2".to_string())]
    );
}

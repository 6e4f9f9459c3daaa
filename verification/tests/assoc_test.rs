use passterm::assoc::StrMap;

fn keys(m: &StrMap<String>) -> Vec<String> {
    m.keys()
}

#[test]
fn insert_keeps_first_position_and_overwrites() {
    let mut m: StrMap<String> = StrMap::new();
    m.insert("B".to_string(), "1".to_string());
    m.insert("A".to_string(), "2".to_string());
    m.insert("B".to_string(), "3".to_string());
    assert_eq!(m.len(), 2);
    assert_eq!(keys(&m), vec!["B".to_string(), "A".to_string()]);
    assert_eq!(m.get("B").unwrap(), "3");
    assert_eq!(m.get("A").unwrap(), "2");
    assert!(m.get("C").is_none());
    assert_eq!(m.find("A"), Some(1));
    assert!(m.contains_key("B"));
    assert!(!m.contains_key("b"));
}

#[test]
fn remove_returns_value_and_keeps_order() {
    let mut m: StrMap<String> = StrMap::new();
    m.insert("x".to_string(), "1".to_string());
    m.insert("y".to_string(), "2".to_string());
    m.insert("z".to_string(), "3".to_string());
    assert_eq!(m.remove("y"), Some("2".to_string()));
    assert_eq!(m.remove("y"), None);
    assert_eq!(keys(&m), vec!["x".to_string(), "z".to_string()]);
    assert_eq!(m.key_at(1), "z");
    assert_eq!(m.value_at(1), "3");
    assert!(!m.is_empty());
}

#[test]
fn replace_value_at_keeps_key() {
    let mut m: StrMap<String> = StrMap::new();
    m.insert("k".to_string(), "old".to_string());
    let old = m.replace_value_at(0, "new".to_string());
    assert_eq!(old, "old");
    assert_eq!(m.get("k").unwrap(), "new");
    assert_eq!(m.len(), 1);
}

#[test]
fn empty_map() {
    let m: StrMap<String> = StrMap::new();
    assert!(m.is_empty());
    assert_eq!(m.len(), 0);
    assert!(m.keys().is_empty());
    assert_eq!(m.find(""), None);
}

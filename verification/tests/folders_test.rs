use passterm::vault::{Vault, VarMap};

fn vars(pairs: &[(&str, &str)]) -> VarMap {
    let mut m = VarMap::new();
    for (k, v) in pairs {
        m.insert(k.to_string(), v.to_string());
    }
    m
}

#[test]
fn entry_in_folder_is_keyed_by_folder_and_id() {
    let mut vault = Vault::new();
    vault.add_entry_in_folder("db".to_string(), Some("prod".to_string()), vars(&[("PW", "x")]));
    assert!(vault.get_entry("db").is_none());
    let e = vault.get_entry("prod/db").unwrap();
    assert_eq!(e.id, "db");
    assert_eq!(e.folder.as_deref(), Some("prod"));
    assert_eq!(e.variables.get("PW").unwrap(), "x");
}

#[test]
fn add_entry_replaces_same_key() {
    let mut vault = Vault::new();
    vault.add_entry("a".to_string(), vars(&[("K", "1")]));
    vault.add_entry("b".to_string(), vars(&[]));
    vault.add_entry("a".to_string(), vars(&[("K", "2")]));
    assert_eq!(vault.entries.len(), 2);
    assert_eq!(vault.entries.keys(), vec!["a".to_string(), "b".to_string()]);
    assert_eq!(vault.get_entry("a").unwrap().variables.get("K").unwrap(), "2");
}

#[test]
fn remove_missing_entry_gives_none() {
    let mut vault = Vault::new();
    vault.add_entry("a".to_string(), vars(&[]));
    assert!(vault.remove_entry("b").is_none());
    assert_eq!(vault.entries.len(), 1);
}

#[test]
fn add_folder_twice_lists_it_once() {
    let mut vault = Vault::new();
    vault.add_folder("work".to_string());
    vault.add_folder("home".to_string());
    vault.add_folder("work".to_string());
    assert_eq!(vault.folders, vec!["work".to_string(), "home".to_string()]);
}

#[test]
fn remove_folder_moves_entries_to_root() {
    let mut vault = Vault::new();
    vault.add_folder("work".to_string());
    vault.add_folder("home".to_string());
    vault.add_entry_in_folder("a".to_string(), Some("work".to_string()), vars(&[]));
    vault.add_entry_in_folder("b".to_string(), Some("home".to_string()), vars(&[]));
    vault.add_entry("c".to_string(), vars(&[]));
    vault.remove_folder("work");
    assert_eq!(vault.folders, vec!["home".to_string()]);
    let a = vault.get_entry("work/a").unwrap();
    assert!(a.folder.is_none());
    assert_eq!(vault.get_entry("home/b").unwrap().folder.as_deref(), Some("home"));
    assert!(vault.get_entries_in_folder(Some("work")).is_empty());
    let root: Vec<String> = vault.get_entries_in_folder(None).iter().map(|e| e.id.clone()).collect();
    assert_eq!(root, vec!["a".to_string(), "c".to_string()]);
}

#[test]
fn entries_in_folder_keep_key_order() {
    let mut vault = Vault::new();
    vault.add_entry_in_folder("x".to_string(), Some("f".to_string()), vars(&[]));
    vault.add_entry("y".to_string(), vars(&[]));
    vault.add_entry_in_folder("z".to_string(), Some("f".to_string()), vars(&[]));
    let in_f: Vec<String> = vault.get_entries_in_folder(Some("f")).iter().map(|e| e.id.clone()).collect();
    assert_eq!(in_f, vec!["x".to_string(), "z".to_string()]);
    assert!(vault.get_entries_in_folder(Some("g")).is_empty());
}

#[test]
fn default_vault_is_empty() {
    let vault: Vault = Default::default();
    assert!(vault.entries.is_empty());
    assert!(vault.folders.is_empty());
}

#[test]
fn folder_listings_partition_the_entries() {
    let mut vault = Vault::new();
    vault.add_entry_in_folder("a".to_string(), Some("f".to_string()), vars(&[]));
    vault.add_entry_in_folder("b".to_string(), Some("g".to_string()), vars(&[]));
    vault.add_entry("c".to_string(), vars(&[]));
    vault.add_entry_in_folder("d".to_string(), Some("f".to_string()), vars(&[]));
    let f = vault.get_entries_in_folder(Some("f"));
    let g = vault.get_entries_in_folder(Some("g"));
    let root = vault.get_entries_in_folder(None);
    assert_eq!(f.len() + g.len() + root.len(), vault.entries.len());
    for e in &f {
        assert!(!g.iter().any(|x| x.id == e.id) && !root.iter().any(|x| x.id == e.id));
    }
}

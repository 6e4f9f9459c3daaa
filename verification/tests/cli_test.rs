use passterm::cli::{check_new_password, variable_lines, variable_name, InitError};
use passterm::vault::{Vault, VarMap};

#[test]
fn new_password_checks() {
    assert_eq!(check_new_password("", ""), Err(InitError::EmptyPassword));
    assert_eq!(check_new_password("a", "b"), Err(InitError::Mismatch));
    assert_eq!(check_new_password("abc", "abc"), Ok(()));
}

#[test]
fn variable_names_are_trimmed_and_empty_ends() {
    assert_eq!(variable_name("  KEY \n"), Some("KEY".to_string()));
    assert_eq!(variable_name("  \n"), None);
    assert_eq!(variable_name(""), None);
}

#[test]
fn entry_variables_are_listed() {
    let mut vars = VarMap::new();
    vars.insert("A".to_string(), "1".to_string());
    vars.insert("B".to_string(), "x=y".to_string());
    let mut vault = Vault::new();
    vault.add_entry("e".to_string(), vars);
    let lines = variable_lines(vault.get_entry("e").unwrap());
    assert_eq!(lines, vec!["  A=1".to_string(), "  B=x=y".to_string()]);
}

use passterm::tui::{handle_key, Action, App, Key};
use passterm::vault::storage::StorageError;
use passterm::vault::{Vault, VarMap};

fn press(app: &mut App, key: Key) -> Action {
    handle_key(key, app)
}

fn type_text(app: &mut App, text: &str) {
    for c in text.chars() {
        press(app, Key::Char(c));
    }
}

fn vault_with(ids: &[&str]) -> Vault {
    let mut v = Vault::new();
    for id in ids {
        let mut vars = VarMap::new();
        vars.insert("K".to_string(), format!("v-{}", id));
        vars.insert("L".to_string(), "second".to_string());
        v.add_entry(id.to_string(), vars);
    }
    v
}

fn unlocked(ids: &[&str]) -> App {
    let mut app = App::new();
    assert!(app.unlock(Ok(vault_with(ids))));
    app
}

#[test]
fn new_app_is_locked() {
    let app = App::new();
    assert!(app.vault.is_none());
    assert!(app.entries.is_empty());
    assert_eq!(app.selected, 0);
    assert!(app.adding_id_mode);
    assert!(!app.show_password_input);
}

#[test]
fn password_prompt_and_unlock() {
    let mut app = App::new();
    assert!(matches!(press(&mut app, Key::Enter), Action::Nothing));
    assert!(app.show_password_input);
    assert!(matches!(press(&mut app, Key::Enter), Action::Nothing));
    type_text(&mut app, "pw1x");
    press(&mut app, Key::Backspace);
    assert_eq!(app.password_input, "pw1");
    assert!(matches!(press(&mut app, Key::Enter), Action::Unlock));
    assert_eq!(app.password, "pw1");
    assert!(app.finish_unlock(Ok(vault_with(&["a", "b"]))));
    assert!(!app.show_password_input);
    assert_eq!(app.password_input, "");
    assert_eq!(app.entries, vec!["a".to_string(), "b".to_string()]);
}

#[test]
fn failed_unlock_keeps_prompt_open() {
    let mut app = App::new();
    press(&mut app, Key::Enter);
    type_text(&mut app, "bad");
    press(&mut app, Key::Enter);
    assert!(!app.finish_unlock(Err(StorageError::Crypto(passterm::vault::crypto::CryptoError::DecryptionFailed))));
    assert!(app.vault.is_none());
    assert!(app.show_password_input);
    assert_eq!(app.password_input, "");
    assert!(!app.unlock(Err(StorageError::NotFound)));
}

#[test]
fn quit_only_outside_prompts() {
    let mut app = unlocked(&["a"]);
    assert!(matches!(press(&mut app, Key::Char('q')), Action::Quit));
    press(&mut app, Key::Char('a'));
    assert!(matches!(press(&mut app, Key::Char('q')), Action::Nothing));
    assert_eq!(app.new_entry_id, "q");
}

#[test]
fn navigation_stays_in_range() {
    let mut app = unlocked(&["a", "b", "c"]);
    press(&mut app, Key::Up);
    assert_eq!(app.selected, 0);
    press(&mut app, Key::Down);
    press(&mut app, Key::Down);
    press(&mut app, Key::Down);
    assert_eq!(app.selected, 2);
    press(&mut app, Key::Up);
    assert_eq!(app.selected, 1);
}

#[test]
fn view_secret_and_copy() {
    let mut app = unlocked(&["a", "b"]);
    press(&mut app, Key::Down);
    press(&mut app, Key::Enter);
    assert!(app.show_secret);
    assert_eq!(app.secret_entry, "b");
    assert_eq!(app.secret_index, 0);
    match press(&mut app, Key::Char('c')) {
        Action::Copy(v) => assert_eq!(v, "v-b"),
        _ => panic!("expected a copy"),
    }
    press(&mut app, Key::Down);
    press(&mut app, Key::Down);
    assert_eq!(app.secret_index, 1);
    match press(&mut app, Key::Char('c')) {
        Action::Copy(v) => assert_eq!(v, "second"),
        _ => panic!("expected a copy"),
    }
    press(&mut app, Key::Esc);
    assert!(!app.show_secret);
    assert!(matches!(press(&mut app, Key::Char('c')), Action::Nothing));
}

#[test]
fn add_entry_flow_saves() {
    let mut app = unlocked(&["a"]);
    press(&mut app, Key::Char('a'));
    assert!(app.adding_entry && app.adding_id_mode);
    type_text(&mut app, "new");
    assert!(matches!(press(&mut app, Key::Enter), Action::Nothing));
    assert!(!app.adding_id_mode);
    assert_eq!(app.new_vars, vec![(String::new(), String::new())]);
    type_text(&mut app, "KEY");
    press(&mut app, Key::Char('n'));
    press(&mut app, Key::Down);
    // 'a', 'c' and 'd' are commands and never reach a text field.
    type_text(&mut app, "val");
    assert_eq!(
        app.new_vars,
        vec![("KEY".to_string(), String::new()), (String::new(), "vl".to_string())]
    );
    assert!(matches!(press(&mut app, Key::Enter), Action::Save));
    assert!(!app.adding_entry);
    assert!(app.new_vars.is_empty());
    assert_eq!(app.entries, vec!["a".to_string(), "new".to_string()]);
    let e = app.vault.as_ref().unwrap().get_entry("new").unwrap();
    assert_eq!(e.variables.len(), 1);
    assert_eq!(e.variables.get("KEY").unwrap(), "");
}

#[test]
fn enter_with_only_empty_rows_does_not_save() {
    let mut app = unlocked(&[]);
    press(&mut app, Key::Char('a'));
    type_text(&mut app, "x");
    press(&mut app, Key::Enter);
    assert!(matches!(press(&mut app, Key::Enter), Action::Nothing));
    assert!(app.adding_entry);
}

#[test]
fn tab_clears_value_of_named_row() {
    let mut app = unlocked(&[]);
    press(&mut app, Key::Char('a'));
    type_text(&mut app, "x");
    press(&mut app, Key::Enter);
    app.new_vars = vec![("K".to_string(), "v".to_string())];
    press(&mut app, Key::Tab);
    assert_eq!(app.new_vars, vec![("K".to_string(), String::new())]);
}

#[test]
fn delete_last_entry_moves_selection_up() {
    let mut app = unlocked(&["a", "b", "c"]);
    press(&mut app, Key::Down);
    press(&mut app, Key::Down);
    assert!(matches!(press(&mut app, Key::Char('d')), Action::Save));
    assert_eq!(app.entries, vec!["a".to_string(), "b".to_string()]);
    assert_eq!(app.selected, 1);
    assert!(app.vault.as_ref().unwrap().get_entry("c").is_none());
    press(&mut app, Key::Up);
    press(&mut app, Key::Char('d'));
    assert_eq!(app.entries, vec!["b".to_string()]);
    assert_eq!(app.selected, 0);
}

#[test]
fn delete_on_empty_list_does_nothing() {
    let mut app = unlocked(&[]);
    assert!(matches!(press(&mut app, Key::Char('d')), Action::Nothing));
}

#[test]
fn escape_leaves_editing() {
    let mut app = unlocked(&["a"]);
    press(&mut app, Key::Char('a'));
    type_text(&mut app, "zz");
    press(&mut app, Key::Esc);
    assert!(!app.adding_entry);
    assert!(app.adding_id_mode);
    assert_eq!(app.new_entry_id, "");
}

#[test]
fn save_entry_without_vault_changes_nothing() {
    let mut app = App::new();
    app.new_entry_id = "x".to_string();
    assert!(!app.save_entry());
    assert!(app.vault.is_none());
}

#[test]
fn save_entry_collects_rows() {
    let mut app = unlocked(&[]);
    app.new_entry_id = "e".to_string();
    app.new_vars = vec![
        ("A".to_string(), "1".to_string()),
        (String::new(), "skipped".to_string()),
        ("A".to_string(), "2".to_string()),
        ("B".to_string(), "3".to_string()),
    ];
    assert!(app.save_entry());
    let e = app.vault.as_ref().unwrap().get_entry("e").unwrap();
    assert_eq!(e.variables.keys(), vec!["A".to_string(), "B".to_string()]);
    assert_eq!(e.variables.get("A").unwrap(), "2");
    assert_eq!(app.entries, vec!["e".to_string()]);
}

#[test]
fn enter_in_secret_view_moves_to_next_variable() {
    let mut app = unlocked(&["a"]);
    press(&mut app, Key::Enter);
    assert!(app.show_secret);
    assert_eq!(app.secret_index, 0);
    assert!(matches!(press(&mut app, Key::Enter), Action::Nothing));
    assert_eq!(app.secret_index, 1);
    press(&mut app, Key::Enter);
    assert_eq!(app.secret_index, 1);
    assert!(app.show_secret);
    assert_eq!(app.secret_entry, "a");
}

use passterm::screen::Screen;
use passterm::tui::{handle_key, App, Key};
use passterm::vault::{Vault, VarMap};

fn unlocked(ids: &[&str]) -> App {
    let mut v = Vault::new();
    for id in ids {
        let mut vars = VarMap::new();
        vars.insert("USER".to_string(), "me".to_string());
        vars.insert("PASS".to_string(), "secret".to_string());
        v.add_entry(id.to_string(), vars);
    }
    let mut app = App::new();
    app.unlock(Ok(v));
    app
}

#[test]
fn screens_follow_the_state() {
    let mut app = App::new();
    assert!(matches!(app.screen(), Screen::Locked));
    assert_eq!(app.screen().title(), " Passterm - Locked ");
    assert_eq!(app.screen().help(), "[Enter] unlock");
    handle_key(Key::Enter, &mut app);
    assert!(matches!(app.screen(), Screen::PasswordPrompt));
    let mut app = unlocked(&[]);
    assert!(matches!(app.screen(), Screen::NoEntries));
    assert_eq!(app.screen().title(), " Passterm ");
    handle_key(Key::Char('a'), &mut app);
    assert!(matches!(app.screen(), Screen::EntryName));
    assert_eq!(app.screen().help(), "[Enter] next | [Esc] cancel");
    let app = unlocked(&["x"]);
    assert!(matches!(app.screen(), Screen::Entries));
    assert_eq!(app.screen().help(), "[Enter] view | [a] add | [d] delete | [q] quit");
}

#[test]
fn password_is_masked() {
    let mut app = App::new();
    app.password_input = "héllo".to_string();
    assert_eq!(app.password_line(), "Password: *****");
}

#[test]
fn entry_name_line_shows_the_name() {
    let mut app = App::new();
    app.new_entry_id = "vercel".to_string();
    assert_eq!(app.entry_name_line(), "Entry ID: vercel");
}

#[test]
fn entry_list_marks_the_selection() {
    let mut app = unlocked(&["a", "b"]);
    handle_key(Key::Down, &mut app);
    assert_eq!(app.entry_lines(), vec!["  a".to_string(), "> b".to_string()]);
}

#[test]
fn secret_view_shows_only_the_highlighted_value() {
    let mut app = unlocked(&["a"]);
    handle_key(Key::Enter, &mut app);
    let (title, lines) = app.secret_lines().unwrap();
    assert_eq!(title, " a ");
    assert_eq!(lines, vec!["> USER = me".to_string(), "  PASS = *****".to_string()]);
    assert_eq!(app.screen().title(), " Passterm - View Secret ");
}

#[test]
fn secret_view_of_missing_entry_is_empty() {
    let mut app = unlocked(&["a"]);
    app.secret_entry = "zz".to_string();
    assert!(app.secret_lines().is_none());
}

#[test]
fn variable_editor_lines() {
    let mut app = App::new();
    app.new_vars = vec![("K".to_string(), String::new()), ("L".to_string(), "v".to_string())];
    app.current_var = 1;
    assert_eq!(app.row_lines(), vec!["  K = _".to_string(), "> L = v".to_string()]);
}

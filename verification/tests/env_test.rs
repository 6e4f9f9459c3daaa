use passterm::text::trim;
use passterm::vault::storage::parse_env;

fn pairs(content: &str) -> Vec<(String, String)> {
    let m = parse_env(content);
    (0..m.len()).map(|i| (m.key_at(i).clone(), m.value_at(i).clone())).collect()
}

fn p(k: &str, v: &str) -> (String, String) {
    (k.to_string(), v.to_string())
}

#[test]
fn parses_names_and_values() {
    assert_eq!(pairs("A=1\nB=2\n"), vec![p("A", "1"), p("B", "2")]);
}

#[test]
fn skips_blank_comment_and_plain_lines() {
    let text = "\n# comment=1\n   \nNOEQUALS\n  # indented=2\nX=y";
    assert_eq!(pairs(text), vec![p("X", "y")]);
}

#[test]
fn trims_names_and_values_and_splits_at_first_equals() {
    assert_eq!(pairs("  KEY  =  a=b=c  \r\n"), vec![p("KEY", "a=b=c")]);
}

#[test]
fn later_line_wins() {
    assert_eq!(pairs("K=1\nJ=2\nK=3"), vec![p("K", "3"), p("J", "2")]);
}

#[test]
fn empty_name_and_value_are_kept() {
    assert_eq!(pairs("=v\nE="), vec![p("", "v"), p("E", "")]);
}

#[test]
fn empty_text_has_no_variables() {
    assert!(parse_env("").is_empty());
    assert!(parse_env("\n\n").is_empty());
}

#[test]
fn trim_removes_unicode_white_space() {
    assert_eq!(trim("\u{a0}\t x y \u{3000}\n"), "x y");
    assert_eq!(trim("   "), "");
    assert_eq!(trim("abc"), "abc");
    assert_eq!(trim(" é "), "é");
}

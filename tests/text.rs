use minishell::text::{join_spaced, parse_i32_str, split_str, trim_str};

fn strings(items: &[&str]) -> Vec<String> {
    items.iter().map(|s| s.to_string()).collect()
}

#[test]
fn trim_removes_surrounding_whitespace() {
    assert_eq!(trim_str("  a b \t\n"), "a b");
    assert_eq!(trim_str("\u{3000}x\u{a0}\u{2028}"), "x");
    assert_eq!(trim_str(" \t "), "");
    assert_eq!(trim_str("é"), "é");
}

#[test]
fn split_keeps_empty_pieces() {
    assert_eq!(split_str("a  b", ' '), strings(&["a", "", "b"]));
    assert_eq!(split_str("", ' '), strings(&[""]));
    assert_eq!(split_str(" ", ' '), strings(&["", ""]));
    assert_eq!(split_str("abc", ' '), strings(&["abc"]));
}

#[test]
fn join_puts_single_spaces_between_pieces() {
    let parts = strings(&["x", "a", "", "b"]);
    assert_eq!(join_spaced(&parts, 1), "a  b");
    assert_eq!(join_spaced(&parts, 0), "x a  b");
    assert_eq!(join_spaced(&parts, 3), "b");
    assert_eq!(join_spaced(&parts, 4), "");
}

#[test]
fn parse_i32_reads_decimal_integers() {
    assert_eq!(parse_i32_str("0"), Some(0));
    assert_eq!(parse_i32_str("+5"), Some(5));
    assert_eq!(parse_i32_str("-0"), Some(0));
    assert_eq!(parse_i32_str("007"), Some(7));
    assert_eq!(parse_i32_str("-42"), Some(-42));
    assert_eq!(parse_i32_str("2147483647"), Some(i32::MAX));
    assert_eq!(parse_i32_str("-2147483648"), Some(i32::MIN));
}

#[test]
fn parse_i32_rejects_other_text() {
    assert_eq!(parse_i32_str(""), None);
    assert_eq!(parse_i32_str("-"), None);
    assert_eq!(parse_i32_str("+"), None);
    assert_eq!(parse_i32_str("12a"), None);
    assert_eq!(parse_i32_str(" 1"), None);
    assert_eq!(parse_i32_str("--1"), None);
    assert_eq!(parse_i32_str("2147483648"), None);
    assert_eq!(parse_i32_str("-2147483649"), None);
    assert_eq!(parse_i32_str("99999999999999999999"), None);
}

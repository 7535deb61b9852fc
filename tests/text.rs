use tabledb::command::text_value_rendering;
use tabledb::text::{less_than, parse_i32, push_int, split_words};

#[test]
fn split_words_on_whitespace_runs() {
    assert_eq!(split_words("  a  bc\td\n"), vec!["a", "bc", "d"]);
    assert_eq!(split_words(""), Vec::<String>::new());
    assert_eq!(split_words("x\u{3000}y\u{a0}z"), vec!["x", "y", "z"]);
}

#[test]
fn parse_i32_cases() {
    assert_eq!(parse_i32("0"), Some(0));
    assert_eq!(parse_i32("-15"), Some(-15));
    assert_eq!(parse_i32("+15"), Some(15));
    assert_eq!(parse_i32("007"), Some(7));
    assert_eq!(parse_i32("2147483647"), Some(i32::MAX));
    assert_eq!(parse_i32("-2147483648"), Some(i32::MIN));
    assert_eq!(parse_i32("2147483648"), None);
    assert_eq!(parse_i32("99999999999999999999"), None);
    assert_eq!(parse_i32(""), None);
    assert_eq!(parse_i32("-"), None);
    assert_eq!(parse_i32("+"), None);
    assert_eq!(parse_i32("1.0"), None);
    assert_eq!(parse_i32("12a"), None);
}

#[test]
fn push_int_writes_decimal() {
    let mut s = String::from("n=");
    push_int(&mut s, -2147483648);
    assert_eq!(s, "n=-2147483648");
    let mut t = String::new();
    push_int(&mut t, 0);
    push_int(&mut t, 907);
    assert_eq!(t, "0907");
}

#[test]
fn less_than_is_lexicographic() {
    assert!(less_than("a", "b"));
    assert!(less_than("ab", "abc"));
    assert!(!less_than("abc", "ab"));
    assert!(!less_than("x", "x"));
    assert!(less_than("", "a"));
    assert!(less_than("Z", "a"));
}

#[test]
fn text_value_rendering_wraps_quoted_text() {
    assert_eq!(text_value_rendering("\"hi\""), "String(\"hi\")");
}

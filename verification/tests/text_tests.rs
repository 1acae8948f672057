use yawmak::text::{
    contains_str, str_eq, to_ascii_lower, trim_str, split_trim, split_tags, parse_i32,
    i32_to_string, bool_to_string, join_comma_space,
};

#[test]
fn contains_finds_substrings() {
    assert!(contains_str("hello world", "lo wo"));
    assert!(contains_str("hello", "hello"));
    assert!(contains_str("hello", ""));
    assert!(!contains_str("hello", "world"));
    assert!(!contains_str("he", "hello"));
    assert!(!contains_str("Hello", "hello"));
}

#[test]
fn str_eq_compares_exactly() {
    assert!(str_eq("abc", "abc"));
    assert!(!str_eq("abc", "abd"));
    assert!(!str_eq("abc", "abcd"));
    assert!(str_eq("", ""));
}

#[test]
fn lowercase_folds_ascii_only() {
    assert_eq!(to_ascii_lower("Foreign KEY"), "foreign key");
    assert_eq!(to_ascii_lower("abc123"), "abc123");
}

#[test]
fn trim_removes_edge_blanks() {
    assert_eq!(trim_str("  a b  "), "a b");
    assert_eq!(trim_str("\ta\t"), "a");
    assert_eq!(trim_str("   "), "");
    assert_eq!(trim_str("x"), "x");
}

#[test]
fn split_trims_every_piece() {
    assert_eq!(split_trim("a, b ,c"), vec!["a", "b", "c"]);
    assert_eq!(split_trim("a,,b"), vec!["a", "", "b"]);
    assert_eq!(split_trim(""), vec![""]);
    assert_eq!(split_trim(" solo "), vec!["solo"]);
}

#[test]
fn split_tags_flattens_every_argument() {
    let args = vec!["a,b".to_string(), " c ".to_string()];
    assert_eq!(split_tags(&args), vec!["a", "b", "c"]);
    let none: Vec<String> = Vec::new();
    assert_eq!(split_tags(&none), Vec::<String>::new());
}

#[test]
fn parse_i32_reads_signed_decimals() {
    assert_eq!(parse_i32("42"), Some(42));
    assert_eq!(parse_i32("+42"), Some(42));
    assert_eq!(parse_i32("-42"), Some(-42));
    assert_eq!(parse_i32("0"), Some(0));
    assert_eq!(parse_i32("007"), Some(7));
    assert_eq!(parse_i32("2147483647"), Some(i32::MAX));
    assert_eq!(parse_i32("-2147483648"), Some(i32::MIN));
}

#[test]
fn parse_i32_rejects_junk_and_overflow() {
    assert_eq!(parse_i32(""), None);
    assert_eq!(parse_i32("-"), None);
    assert_eq!(parse_i32("12a"), None);
    assert_eq!(parse_i32(" 1"), None);
    assert_eq!(parse_i32("2147483648"), None);
    assert_eq!(parse_i32("-2147483649"), None);
    assert_eq!(parse_i32("99999999999999999999"), None);
}

#[test]
fn i32_to_string_writes_decimals() {
    assert_eq!(i32_to_string(0), "0");
    assert_eq!(i32_to_string(42), "42");
    assert_eq!(i32_to_string(-7), "-7");
    assert_eq!(i32_to_string(i32::MAX), "2147483647");
    assert_eq!(i32_to_string(i32::MIN), "-2147483648");
}

#[test]
fn bool_to_string_matches_rust() {
    assert_eq!(bool_to_string(true), "true");
    assert_eq!(bool_to_string(false), "false");
}

#[test]
fn join_uses_comma_space() {
    let v = vec!["a".to_string(), "b".to_string(), "c".to_string()];
    assert_eq!(join_comma_space(&v), "a, b, c");
    let one = vec!["x".to_string()];
    assert_eq!(join_comma_space(&one), "x");
    let none: Vec<String> = Vec::new();
    assert_eq!(join_comma_space(&none), "");
}

use roc_desk_http::text::{
    contains, eq_ignore_ascii_case, i64_to_decimal, replace, replace_char, split, split_once, trim,
    trim_quotes, trim_start, u64_to_decimal,
};

#[test]
fn trim_removes_unicode_white_space() {
    assert_eq!(trim(" \t a b \n"), "a b");
    assert_eq!(trim("\u{3000}x\u{a0}"), "x");
    assert_eq!(trim("   "), "");
    assert_eq!(trim_start("  {x} "), "{x} ");
}

#[test]
fn trim_quotes_strips_both_kinds() {
    assert_eq!(trim_quotes("'\"https://a\"'"), "https://a");
    assert_eq!(trim_quotes("''"), "");
}

#[test]
fn split_keeps_empty_pieces() {
    assert_eq!(split("a&&b", '&'), vec!["a", "", "b"]);
    assert_eq!(split("", '&'), vec![""]);
    assert_eq!(split("a&", '&'), vec!["a", ""]);
}

#[test]
fn split_once_cuts_at_first() {
    assert_eq!(split_once("a:b:c", ':'), Some(("a".to_string(), "b:c".to_string())));
    assert_eq!(split_once("abc", ':'), None);
}

#[test]
fn replace_is_left_to_right_and_non_overlapping() {
    assert_eq!(replace("aaaa", "aa", "x"), "xx");
    assert_eq!(replace("abcabc", "bc", "***"), "a***a***");
    assert_eq!(replace_char("/u/{id}", '{', "{{"), "/u/{{id}");
}

#[test]
fn decimal_notation_matches_to_string() {
    for n in [0u64, 7, 10, 99999, u64::MAX] {
        assert_eq!(u64_to_decimal(n), n.to_string());
    }
    for n in [0i64, -1, 42, i64::MIN, i64::MAX] {
        assert_eq!(i64_to_decimal(n), n.to_string());
    }
}

#[test]
fn ascii_case_insensitive_equality() {
    assert!(eq_ignore_ascii_case("Content-Type", "content-type"));
    assert!(!eq_ignore_ascii_case("Content-Type", "content-typ"));
    assert!(contains("application/json; charset=utf-8", "json"));
    assert!(!contains("text/plain", "json"));
}

//! Tests of the text helpers: equality, search, sorting, number rendering
//! and decimal parsing.

use gen_messages::strutil::{str_eq, str_ends_with, str_starts_with, str_lex_le, sort_strings,
    contains_str, add_unique, find_last_match, find_char_from, skip_ws_from, remove_all,
    str_contains, clean_description, u64_to_string};
use gen_messages::dec::{DecNum, parse_dec, dec_to_string};

#[test]
fn test_str_helpers() {
    assert!(str_eq("abc", "abc"));
    assert!(!str_eq("abc", "abd"));
    assert!(str_ends_with("ResetRequest", "Request"));
    assert!(!str_ends_with("Reset", "Request"));
    assert!(str_starts_with("#/definitions/Foo", "#/definitions/"));
    assert!(str_lex_le("apple", "banana"));
    assert!(str_lex_le("app", "apple"));
    assert!(!str_lex_le("banana", "apple"));
    assert!(str_contains("charging_profile_id", "id"));
    assert!(!str_contains("counter", "id"));
}

#[test]
fn test_find_helpers() {
    assert_eq!(find_last_match("a properties b properties c", "properties"), Some(15));
    assert_eq!(find_last_match("nothing here", "properties"), None);
    assert_eq!(find_char_from("ab{cd", '{', 0), 2);
    assert_eq!(find_char_from("ab{cd", '{', 3), 5);
    assert_eq!(skip_ws_from("  \t x", 0), 4);
}

#[test]
fn test_sort_strings() {
    let v = vec![
        "validator".to_string(),
        "serde".to_string(),
        "chrono".to_string(),
        "serde".to_string(),
    ];
    let sorted = sort_strings(&v);
    assert_eq!(sorted, vec![
        "chrono".to_string(),
        "serde".to_string(),
        "serde".to_string(),
        "validator".to_string(),
    ]);
}

#[test]
fn test_add_unique_idempotent() {
    let mut v: Vec<String> = Vec::new();
    add_unique(&mut v, "use validator::Validate;".to_string());
    add_unique(&mut v, "use serde_json::Value;".to_string());
    add_unique(&mut v, "use validator::Validate;".to_string());
    assert_eq!(v.len(), 2);
    assert!(contains_str(&v, "use serde_json::Value;"));
}

#[test]
fn test_remove_all() {
    assert_eq!(remove_all("RequestStartTransactionRequest", "Request"), "StartTransaction");
    assert_eq!(remove_all("ResetResponse", "Response"), "Reset");
    assert_eq!(remove_all("Heartbeat", "Request"), "Heartbeat");
}

#[test]
fn test_clean_description() {
    assert_eq!(clean_description("  line one\r\nline two  "), "line one line two");
    assert_eq!(clean_description("plain"), "plain");
    assert_eq!(clean_description(" \r\n "), "");
}

#[test]
fn test_u64_to_string() {
    assert_eq!(u64_to_string(0), "0");
    assert_eq!(u64_to_string(7), "7");
    assert_eq!(u64_to_string(255), "255");
    assert_eq!(u64_to_string(18446744073709551615), "18446744073709551615");
}

#[test]
fn test_parse_dec() {
    assert_eq!(parse_dec("50.5"), Some(DecNum { neg: false, mag: 505, scale: 1 }));
    assert_eq!(parse_dec("5.0"), Some(DecNum { neg: false, mag: 5, scale: 0 }));
    assert_eq!(parse_dec("-0.5"), Some(DecNum { neg: true, mag: 5, scale: 1 }));
    assert_eq!(parse_dec("42"), Some(DecNum { neg: false, mag: 42, scale: 0 }));
    assert_eq!(parse_dec("0"), Some(DecNum { neg: false, mag: 0, scale: 0 }));
    assert_eq!(parse_dec(""), None);
    assert_eq!(parse_dec("1.2.3"), None);
    assert_eq!(parse_dec("abc"), None);
    assert_eq!(parse_dec(".5"), None);
    assert_eq!(parse_dec("5."), None);
    assert_eq!(parse_dec("18446744073709551615"), Some(DecNum { neg: false, mag: u64::MAX, scale: 0 }));
    assert_eq!(parse_dec("18446744073709551616"), None);
}

#[test]
fn test_dec_to_string() {
    assert_eq!(dec_to_string(&DecNum { neg: false, mag: 505, scale: 1 }), "50.5");
    assert_eq!(dec_to_string(&DecNum { neg: false, mag: 42, scale: 0 }), "42");
    assert_eq!(dec_to_string(&DecNum { neg: true, mag: 5, scale: 1 }), "-0.5");
    assert_eq!(dec_to_string(&DecNum { neg: false, mag: 5, scale: 3 }), "0.005");
    assert_eq!(dec_to_string(&DecNum { neg: false, mag: 0, scale: 0 }), "0");
}

#[test]
fn test_dec_round_trip() {
    for s in ["50.5", "0.005", "-123.45", "99", "0"] {
        let d = parse_dec(s).unwrap();
        assert_eq!(dec_to_string(&d), s);
    }
}

//! Decimal text handling.

use chromium_bookmarks::num::{parse_dec_micros, u64_to_dec};
use chromium_bookmarks::text::{decode_selector, parse_index, sort_strings, str_lt};

#[test]
fn decimal_rendering_writes_plain_digits() {
    assert_eq!(u64_to_dec(0), "0");
    assert_eq!(u64_to_dec(7), "7");
    assert_eq!(u64_to_dec(1234567890), "1234567890");
    assert_eq!(u64_to_dec(u64::MAX), "18446744073709551615");
}

#[test]
fn timestamp_text_reads_as_microseconds() {
    assert_eq!(parse_dec_micros("0"), Some(0));
    assert_eq!(parse_dec_micros("1.5"), Some(1_500_000));
    assert_eq!(parse_dec_micros("700000000.123456789"), Some(700_000_000_123_456));
    assert_eq!(parse_dec_micros("700000000."), Some(700_000_000_000_000));
    assert_eq!(parse_dec_micros(""), None);
    assert_eq!(parse_dec_micros(".5"), None);
    assert_eq!(parse_dec_micros("-1.5"), None);
    assert_eq!(parse_dec_micros("1e30"), None);
    assert_eq!(parse_dec_micros("9223372036854.775807"), Some(9_223_372_036_854_775_807));
    assert_eq!(parse_dec_micros("9223372036854.775808"), None);
    assert_eq!(parse_dec_micros("99999999999999999999"), None);
}

#[test]
fn index_text_reads_as_a_bounded_number() {
    assert_eq!(parse_index("2"), Some(2));
    assert_eq!(parse_index("0"), Some(0));
    assert_eq!(parse_index("4294967295"), Some(u32::MAX));
    assert_eq!(parse_index("4294967296"), None);
    assert_eq!(parse_index("12a"), None);
    assert_eq!(parse_index(""), None);
}

#[test]
fn selector_text_restores_spaces() {
    assert_eq!(decode_selector("Profile%203"), "Profile 3");
    assert_eq!(decode_selector("Profile+3"), "Profile 3");
    assert_eq!(decode_selector("Profile%2"), "Profile%2");
    assert_eq!(decode_selector("plain"), "plain");
}

#[test]
fn string_sorting_is_lexicographic() {
    assert!(str_lt("Default", "Profile 1"));
    assert!(!str_lt("Profile 1", "Default"));
    assert!(str_lt("Profile 1", "Profile 10"));
    let sorted = sort_strings(vec![
        "Profile 10".to_string(),
        "Default".to_string(),
        "Profile 2".to_string(),
    ]);
    assert_eq!(
        sorted,
        vec!["Default".to_string(), "Profile 10".to_string(), "Profile 2".to_string()]
    );
}

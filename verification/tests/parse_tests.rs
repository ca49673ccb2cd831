//! Reading plain values out of text: number parsing and token splitting.

use i3monkit::parse::{parse_u32, parse_u64, split_tokens, str_eq};

#[test]
fn parse_u64_plain_numbers() {
    assert_eq!(parse_u64("0"), Some(0));
    assert_eq!(parse_u64("42"), Some(42));
    assert_eq!(parse_u64("007"), Some(7));
    assert_eq!(parse_u64("18446744073709551615"), Some(u64::MAX));
}

#[test]
fn parse_u64_rejects_everything_else() {
    assert_eq!(parse_u64(""), None);
    assert_eq!(parse_u64(" 1"), None);
    assert_eq!(parse_u64("1 "), None);
    assert_eq!(parse_u64("-1"), None);
    assert_eq!(parse_u64("+1"), None);
    assert_eq!(parse_u64("1a"), None);
    assert_eq!(parse_u64("18446744073709551616"), None);
}

#[test]
fn parse_u32_bounds() {
    assert_eq!(parse_u32("4294967295"), Some(u32::MAX));
    assert_eq!(parse_u32("4294967296"), None);
}

#[test]
fn split_tokens_keeps_empty_tokens() {
    assert_eq!(split_tokens("a b\tc"), vec!["a", "b", "c"]);
    assert_eq!(split_tokens("a  b"), vec!["a", "", "b"]);
    assert_eq!(split_tokens(""), vec![""]);
    assert_eq!(split_tokens(" x "), vec!["", "x", ""]);
}

#[test]
fn str_eq_compares_characters() {
    assert!(str_eq("", ""));
    assert!(str_eq("cpu0", "cpu0"));
    assert!(!str_eq("cpu0", "cpu1"));
    assert!(!str_eq("cpu", "cpu0"));
}

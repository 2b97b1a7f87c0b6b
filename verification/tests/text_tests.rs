// Decimal rendering and parsing, splitting, and prefix stripping.
use log_pipelines::drainer::{split_char, strip_user_prefix};
use log_pipelines::text::{parse_u64_str, u64_to_string};

#[test]
fn test_u64_to_string_values() {
    assert_eq!(u64_to_string(0), "0");
    assert_eq!(u64_to_string(7), "7");
    assert_eq!(u64_to_string(19847), "19847");
    assert_eq!(u64_to_string(u64::MAX), "18446744073709551615");
}

#[test]
fn test_parse_u64_values() {
    assert_eq!(parse_u64_str("0"), Some(0));
    assert_eq!(parse_u64_str("007"), Some(7));
    assert_eq!(parse_u64_str("19847"), Some(19847));
    assert_eq!(parse_u64_str("18446744073709551615"), Some(u64::MAX));
    assert_eq!(parse_u64_str("18446744073709551616"), None);
    assert_eq!(parse_u64_str(""), None);
    assert_eq!(parse_u64_str("12a"), None);
    assert_eq!(parse_u64_str("-1"), None);
    assert_eq!(parse_u64_str("+1"), None);
}

#[test]
fn test_split_char_pieces() {
    assert_eq!(split_char("logs:user_1:2", ':'), vec!["logs", "user_1", "2"]);
    assert_eq!(split_char("a::b", ':'), vec!["a", "", "b"]);
    assert_eq!(split_char("", ':'), vec![""]);
    assert_eq!(split_char(":", ':'), vec!["", ""]);
    assert_eq!(split_char("no-sep", ':'), vec!["no-sep"]);
}

#[test]
fn test_strip_user_prefix_cases() {
    assert_eq!(strip_user_prefix("user_123"), "123");
    assert_eq!(strip_user_prefix("123"), "123");
    assert_eq!(strip_user_prefix("user_"), "");
    assert_eq!(strip_user_prefix("use"), "use");
}

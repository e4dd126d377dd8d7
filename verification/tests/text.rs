use ev3dev_lang::text::{int_to_string, parse_isize, split_spaces, str_eq, str_starts_with, trim};

#[test]
fn trim_removes_surrounding_whitespace() {
    assert_eq!(trim("  hello \n"), "hello".to_string());
    assert_eq!(trim("hello"), "hello".to_string());
    assert_eq!(trim("\t\r\n "), "".to_string());
    assert_eq!(trim(""), "".to_string());
    assert_eq!(trim(" a b "), "a b".to_string());
}

#[test]
fn parse_isize_accepts_signed_decimals() {
    assert_eq!(parse_isize("0"), Some(0));
    assert_eq!(parse_isize("42"), Some(42));
    assert_eq!(parse_isize("-42"), Some(-42));
    assert_eq!(parse_isize("+7"), Some(7));
    assert_eq!(parse_isize("007"), Some(7));
    assert_eq!(parse_isize("9223372036854775807"), Some(isize::MAX));
    assert_eq!(parse_isize("-9223372036854775808"), Some(isize::MIN));
}

#[test]
fn parse_isize_rejects_malformed_text() {
    assert_eq!(parse_isize(""), None);
    assert_eq!(parse_isize("-"), None);
    assert_eq!(parse_isize("+"), None);
    assert_eq!(parse_isize("abc"), None);
    assert_eq!(parse_isize("12a"), None);
    assert_eq!(parse_isize(" 12"), None);
    assert_eq!(parse_isize("1 2"), None);
    assert_eq!(parse_isize("--1"), None);
}

#[test]
fn parse_isize_rejects_overflow() {
    assert_eq!(parse_isize("9223372036854775808"), None);
    assert_eq!(parse_isize("-9223372036854775809"), None);
    assert_eq!(parse_isize("99999999999999999999999999"), None);
}

#[test]
fn int_to_string_formats_decimals() {
    assert_eq!(int_to_string(0), "0".to_string());
    assert_eq!(int_to_string(7), "7".to_string());
    assert_eq!(int_to_string(120), "120".to_string());
    assert_eq!(int_to_string(-1), "-1".to_string());
    assert_eq!(int_to_string(-305), "-305".to_string());
    assert_eq!(int_to_string(isize::MAX), "9223372036854775807".to_string());
    assert_eq!(int_to_string(isize::MIN), "-9223372036854775808".to_string());
}

#[test]
fn format_parse_round_trip() {
    for v in [0isize, 1, -1, 10, -10, 4095, -4096, isize::MAX, isize::MIN] {
        assert_eq!(parse_isize(int_to_string(v).as_str()), Some(v));
    }
}

#[test]
fn split_spaces_splits_on_single_spaces() {
    assert_eq!(split_spaces("TOUCH"), vec!["TOUCH".to_string()]);
    assert_eq!(split_spaces("TOUCH COLOR"), vec!["TOUCH".to_string(), "COLOR".to_string()]);
    assert_eq!(split_spaces(""), vec!["".to_string()]);
    assert_eq!(split_spaces("a  b"), vec!["a".to_string(), "".to_string(), "b".to_string()]);
    assert_eq!(split_spaces(" a"), vec!["".to_string(), "a".to_string()]);
}

#[test]
fn str_eq_compares_contents() {
    assert!(str_eq("abc", "abc"));
    assert!(!str_eq("abc", "abd"));
    assert!(!str_eq("abc", "ab"));
    assert!(str_eq("", ""));
}

#[test]
fn str_starts_with_checks_prefixes() {
    assert!(str_starts_with("sensor0", "sensor"));
    assert!(str_starts_with("sensor0", ""));
    assert!(!str_starts_with("sensor0", "motor"));
    assert!(!str_starts_with("sen", "sensor"));
}

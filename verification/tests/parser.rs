use petroleum::text::{parse_command, parse_i32, parse_u64};

#[test]
fn test_parse_command() {
    assert_eq!(
        parse_command("command arg1 arg2"),
        Some(("command".to_string(), vec!["arg1".to_string(), "arg2".to_string()])),
    );
    assert_eq!(
        parse_command(" command  arg1  arg2 "),
        Some(("command".to_string(), vec!["arg1".to_string(), "arg2".to_string()])),
    );
    assert_eq!(parse_command("command"), Some(("command".to_string(), vec![])),);
    assert_eq!(parse_command(" "), None);
}

#[test]
fn parse_command_rejects_whitespace_only_text() {
    assert_eq!(parse_command(""), None);
    assert_eq!(parse_command("   "), None);
    assert_eq!(parse_command(" \t \n \r "), None);
}

#[test]
fn parse_command_collapses_whitespace_runs() {
    assert_eq!(
        parse_command("\tmeslimit\n enable\r\n10 "),
        Some(("meslimit".to_string(), vec!["enable".to_string(), "10".to_string()])),
    );
}

#[test]
fn parse_u64_reads_decimal_digits() {
    assert_eq!(parse_u64("0"), Some(0));
    assert_eq!(parse_u64("123"), Some(123));
    assert_eq!(parse_u64("18446744073709551615"), Some(u64::MAX));
}

#[test]
fn parse_u64_rejects_empty_overflowing_and_non_digit_text() {
    assert_eq!(parse_u64(""), None);
    assert_eq!(parse_u64("18446744073709551616"), None);
    assert_eq!(parse_u64("12a"), None);
    assert_eq!(parse_u64("-1"), None);
}

#[test]
fn parse_i32_accepts_an_optional_sign() {
    assert_eq!(parse_i32("10"), Some(10));
    assert_eq!(parse_i32("+10"), Some(10));
    assert_eq!(parse_i32("-10"), Some(-10));
    assert_eq!(parse_i32("2147483647"), Some(i32::MAX));
    assert_eq!(parse_i32("-2147483648"), Some(i32::MIN));
}

#[test]
fn parse_i32_rejects_malformed_and_overflowing_text() {
    assert_eq!(parse_i32(""), None);
    assert_eq!(parse_i32("+"), None);
    assert_eq!(parse_i32("-"), None);
    assert_eq!(parse_i32("2147483648"), None);
    assert_eq!(parse_i32("-2147483649"), None);
    assert_eq!(parse_i32("1 0"), None);
}

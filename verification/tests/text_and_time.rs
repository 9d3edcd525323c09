use ttml_processor::text::{clean_parentheses_from_bg_text_into, normalize_text_whitespace, normalize_text_whitespace_into};
use ttml_processor::time::{format_ttml_time, parse_ttml_time_to_ms};
use ttml_processor::types::ConvertError;

#[test]
fn test_format_ttml_time() {
    assert_eq!(format_ttml_time(3_723_456), "1:02:03.456");
    assert_eq!(format_ttml_time(310_100), "5:10.100");
    assert_eq!(format_ttml_time(7123), "7.123");
    assert_eq!(format_ttml_time(0), "0.000");
    assert_eq!(format_ttml_time(59999), "59.999");
    assert_eq!(format_ttml_time(60000), "1:00.000");
}

#[test]
fn test_parse_ttml_time_to_ms() {
    assert_eq!(parse_ttml_time_to_ms("7.1s").unwrap(), 7100);
    assert_eq!(parse_ttml_time_to_ms("7.12s").unwrap(), 7120);
    assert_eq!(parse_ttml_time_to_ms("7.123s").unwrap(), 7123);
    assert_eq!(parse_ttml_time_to_ms("99999.123s").unwrap(), 99_999_123);
    assert_eq!(parse_ttml_time_to_ms("01:02:03.456").unwrap(), 3_723_456);
    assert_eq!(parse_ttml_time_to_ms("05:10.1").unwrap(), 310_100);
    assert_eq!(parse_ttml_time_to_ms("05:10.12").unwrap(), 310_120);
    assert_eq!(parse_ttml_time_to_ms("7.123").unwrap(), 7123);
    assert_eq!(parse_ttml_time_to_ms("7").unwrap(), 7000);
    assert_eq!(parse_ttml_time_to_ms("15.5s").unwrap(), 15500);
    assert_eq!(parse_ttml_time_to_ms("15s").unwrap(), 15000);

    assert_eq!(parse_ttml_time_to_ms("0").unwrap(), 0);
    assert_eq!(parse_ttml_time_to_ms("0.0s").unwrap(), 0);
    assert_eq!(parse_ttml_time_to_ms("00:00:00.000").unwrap(), 0);
    assert_eq!(parse_ttml_time_to_ms("99:59:59.999").unwrap(), 359_999_999);
    assert_eq!(parse_ttml_time_to_ms("60").unwrap(), 60000);
    assert_eq!(parse_ttml_time_to_ms("123.456").unwrap(), 123_456);

    assert!(matches!(parse_ttml_time_to_ms("abc"), Err(ConvertError::InvalidTime(_))));
    assert!(matches!(parse_ttml_time_to_ms("1:2:3:4"), Err(ConvertError::InvalidTime(_))));
    assert!(matches!(parse_ttml_time_to_ms("01:60:00.000"), Err(ConvertError::InvalidTime(_))));
    assert!(matches!(parse_ttml_time_to_ms("01:00:60.000"), Err(ConvertError::InvalidTime(_))));
    assert!(matches!(parse_ttml_time_to_ms("-10s"), Err(ConvertError::InvalidTime(_))));
    assert!(matches!(parse_ttml_time_to_ms("-01:00:00.000"), Err(ConvertError::InvalidTime(_))));
    assert!(matches!(parse_ttml_time_to_ms("10.s"), Err(ConvertError::InvalidTime(_))));
    assert!(matches!(parse_ttml_time_to_ms(".5s"), Err(ConvertError::InvalidTime(_))));
    assert!(matches!(parse_ttml_time_to_ms("s"), Err(ConvertError::InvalidTime(_))));
    assert!(matches!(parse_ttml_time_to_ms("10.1234s"), Err(ConvertError::InvalidTime(_))));
    assert!(matches!(parse_ttml_time_to_ms("10.abcs"), Err(ConvertError::InvalidTime(_))));
    assert!(matches!(parse_ttml_time_to_ms("10.1234"), Err(ConvertError::InvalidTime(_))));
    assert!(matches!(parse_ttml_time_to_ms("10.abc"), Err(ConvertError::InvalidTime(_))));
    assert!(matches!(parse_ttml_time_to_ms("01:00:.000"), Err(ConvertError::InvalidTime(_))));
}

#[test]
fn test_normalize_text_whitespace() {
    let mut buffer = String::new();

    normalize_text_whitespace_into("  hello   world  ", &mut buffer);
    assert_eq!(buffer, "hello world");

    normalize_text_whitespace_into("\n\t  foo \r\n bar\t", &mut buffer);
    assert_eq!(buffer, "foo bar");

    normalize_text_whitespace_into("single", &mut buffer);
    assert_eq!(buffer, "single");

    normalize_text_whitespace_into("   ", &mut buffer);
    assert_eq!(buffer, "");

    normalize_text_whitespace_into("", &mut buffer);
    assert_eq!(buffer, "");
}

fn clean_parentheses_from_bg_text_into_owned(text: &str) -> String {
    let mut buf = String::new();
    clean_parentheses_from_bg_text_into(text, &mut buf);
    buf
}

#[test]
fn test_clean_parentheses_from_bg_text() {
    assert_eq!(clean_parentheses_from_bg_text_into_owned("(hello)"), "hello");
    assert_eq!(clean_parentheses_from_bg_text_into_owned("（hello）"), "hello");
    assert_eq!(clean_parentheses_from_bg_text_into_owned(" ( hello world ) "), "hello world");
    assert_eq!(clean_parentheses_from_bg_text_into_owned("(unmatched"), "unmatched");
    assert_eq!(clean_parentheses_from_bg_text_into_owned("unmatched)"), "unmatched");
    assert_eq!(clean_parentheses_from_bg_text_into_owned("no parentheses"), "no parentheses");
}

#[test]
fn format_then_parse_gives_the_time_back() {
    for ms in [0u64, 1, 999, 1000, 59_999, 60_000, 3_599_999, 3_600_000, 359_999_999, 123_456_789] {
        assert_eq!(parse_ttml_time_to_ms(&format_ttml_time(ms)).unwrap(), ms);
    }
}

#[test]
fn normalize_text_whitespace_collapses_runs() {
    assert_eq!(normalize_text_whitespace("  a \u{3000} b\u{a0}\u{a0}c "), "a b c");
    assert_eq!(normalize_text_whitespace(""), "");
}

#[test]
fn parse_time_overflow_is_an_error() {
    assert!(matches!(parse_ttml_time_to_ms("99999999999999999999s"), Err(ConvertError::InvalidTime(_))));
}

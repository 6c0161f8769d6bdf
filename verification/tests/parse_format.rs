//! Parsing and formatting behavior of field text.

use gridbind::text::{format_count, format_scalar, parse_count, parse_scalar};

#[test]
fn count_parses_plain_digits() {
    assert_eq!(parse_count("12"), Some(12));
    assert_eq!(parse_count("0"), Some(0));
    assert_eq!(parse_count("007"), Some(7));
}

#[test]
fn count_parses_leading_plus() {
    assert_eq!(parse_count("+7"), Some(7));
}

#[test]
fn count_rejects_empty_and_garbage() {
    assert_eq!(parse_count(""), None);
    assert_eq!(parse_count("+"), None);
    assert_eq!(parse_count("abc"), None);
    assert_eq!(parse_count("1.5"), None);
    assert_eq!(parse_count("-3"), None);
    assert_eq!(parse_count(" 3"), None);
}

#[test]
fn count_handles_the_largest_value() {
    assert_eq!(parse_count("18446744073709551615"), Some(u64::MAX));
    assert_eq!(parse_count("18446744073709551616"), None);
    assert_eq!(parse_count("99999999999999999999999"), None);
}

#[test]
fn scalar_parses_decimals_to_millionths() {
    assert_eq!(parse_scalar("1.5"), Some(1_500_000));
    assert_eq!(parse_scalar("100"), Some(100_000_000));
    assert_eq!(parse_scalar("0"), Some(0));
    assert_eq!(parse_scalar(".5"), Some(500_000));
    assert_eq!(parse_scalar("1."), Some(1_000_000));
    assert_eq!(parse_scalar("+3.25"), Some(3_250_000));
    assert_eq!(parse_scalar("-2"), Some(-2_000_000));
    assert_eq!(parse_scalar("-0.000001"), Some(-1));
}

#[test]
fn scalar_truncates_past_six_fractional_digits() {
    assert_eq!(parse_scalar("0.1234567"), Some(123_456));
    assert_eq!(parse_scalar("0.12345678901"), Some(123_456));
}

#[test]
fn scalar_rejects_malformed_text() {
    assert_eq!(parse_scalar(""), None);
    assert_eq!(parse_scalar("-"), None);
    assert_eq!(parse_scalar("+"), None);
    assert_eq!(parse_scalar("."), None);
    assert_eq!(parse_scalar("1.2.3"), None);
    assert_eq!(parse_scalar("1,5"), None);
    assert_eq!(parse_scalar("two"), None);
    assert_eq!(parse_scalar("0x10"), None);
}

#[test]
fn scalar_rejects_out_of_range_magnitudes() {
    // Just under and over what an `i64` of millionths can carry.
    assert_eq!(parse_scalar("9223372036854.775807"), Some(i64::MAX));
    assert_eq!(parse_scalar("9223372036854.775808"), None);
    assert_eq!(parse_scalar("99999999999999999999"), None);
}

#[test]
fn counts_format_as_plain_digits() {
    assert_eq!(format_count(0), "0");
    assert_eq!(format_count(3), "3");
    assert_eq!(format_count(42), "42");
    assert_eq!(format_count(u64::MAX), "18446744073709551615");
}

#[test]
fn scalars_format_with_two_decimals() {
    assert_eq!(format_scalar(0), "0.00");
    assert_eq!(format_scalar(1_500_000), "1.50");
    assert_eq!(format_scalar(100_000_000), "100.00");
    assert_eq!(format_scalar(-2_000_000), "-2.00");
    assert_eq!(format_scalar(2_345_678), "2.35");
    assert_eq!(format_scalar(1_004_999), "1.00");
    assert_eq!(format_scalar(1_005_000), "1.01");
    assert_eq!(format_scalar(-4_000), "-0.00");
}

#[test]
fn parse_then_format_keeps_two_decimal_values() {
    for text in ["1.50", "0.00", "12.25", "-3.75", "100.00"] {
        let v = parse_scalar(text).unwrap();
        assert_eq!(format_scalar(v), text);
    }
}

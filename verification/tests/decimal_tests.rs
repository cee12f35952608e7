use rebalancer::decimal::{count_decimals, format_fixed, parse_fixed, u64_to_string, SCALE};

#[test]
fn parse_plain_integer() {
    assert_eq!(parse_fixed("100"), Some(100 * SCALE));
    assert_eq!(parse_fixed("0"), Some(0));
}

#[test]
fn parse_fraction() {
    assert_eq!(parse_fixed("1638.84"), Some(163_884_000_000));
    assert_eq!(parse_fixed("0.00000001"), Some(1));
    assert_eq!(parse_fixed("2.5"), Some(250_000_000));
}

#[test]
fn parse_trailing_dot() {
    assert_eq!(parse_fixed("1."), Some(SCALE));
}

#[test]
fn parse_extra_fraction_digits_truncate() {
    assert_eq!(parse_fixed("1.123456789"), Some(112_345_678));
}

#[test]
fn parse_rejects_malformed() {
    assert_eq!(parse_fixed(""), None);
    assert_eq!(parse_fixed(".5"), None);
    assert_eq!(parse_fixed("abc"), None);
    assert_eq!(parse_fixed("1.2.3"), None);
    assert_eq!(parse_fixed("1e3"), None);
    assert_eq!(parse_fixed("-1"), None);
}

#[test]
fn parse_rejects_overflow() {
    assert_eq!(parse_fixed("123456789012345678901234567890"), None);
    // Just below and above the representable integer part.
    assert_eq!(parse_fixed("184467440737.09551615"), Some(u64::MAX));
    assert_eq!(parse_fixed("184467440737.09551616"), None);
}

#[test]
fn format_rounds_and_trims() {
    assert_eq!(format_fixed(163_884_000_000, 2), "1638.84");
    assert_eq!(format_fixed(163_884_999_999, 2), "1638.85");
    assert_eq!(format_fixed(200_000_000_000, 2), "2000");
    assert_eq!(format_fixed(150_000_000, 8), "1.5");
    assert_eq!(format_fixed(0, 4), "0");
}

#[test]
fn format_full_precision() {
    assert_eq!(format_fixed(112_345_678, 8), "1.12345678");
}

#[test]
fn format_parse_round_trip() {
    let v = 163_884_000_000u64;
    assert_eq!(parse_fixed(&format_fixed(v, 8)), Some(v));
}

#[test]
fn count_decimals_examples() {
    assert_eq!(count_decimals("1638.84"), 2);
    assert_eq!(count_decimals("100"), 0);
    assert_eq!(count_decimals("1.2345"), 4);
    assert_eq!(count_decimals("."), 0);
}

#[test]
fn u64_to_string_examples() {
    assert_eq!(u64_to_string(0), "0");
    assert_eq!(u64_to_string(7), "7");
    assert_eq!(u64_to_string(1_234_567_890_123), "1234567890123");
}

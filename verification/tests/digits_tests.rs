use wallet_tracker::digits::{has_nonzero_char, is_digit_string, parse_i64, render_amount};

#[test]
fn renders_whole_units_exactly() {
    assert_eq!(render_amount("1000000000000000000", 18), "1");
    assert_eq!(render_amount("2000000000000000000", 18), "2");
}

#[test]
fn renders_fractions_exactly() {
    assert_eq!(render_amount("500000", 6), "0.5");
    assert_eq!(render_amount("1500000000000000000", 18), "1.5");
    assert_eq!(render_amount("1", 18), "0.000000000000000001");
}

#[test]
fn renders_zero_decimals_as_the_integer() {
    assert_eq!(render_amount("123", 0), "123");
    assert_eq!(render_amount("0", 0), "0");
    assert_eq!(render_amount("007", 0), "7");
}

#[test]
fn renders_zero_value_as_zero() {
    assert_eq!(render_amount("0", 18), "0");
    assert_eq!(render_amount("000", 6), "0");
}

#[test]
fn parses_plain_and_signed_integers() {
    assert_eq!(parse_i64("42"), Some(42));
    assert_eq!(parse_i64("+5"), Some(5));
    assert_eq!(parse_i64("-7"), Some(-7));
    assert_eq!(parse_i64("0"), Some(0));
    assert_eq!(parse_i64("007"), Some(7));
}

#[test]
fn parses_the_extremes_of_the_range() {
    assert_eq!(parse_i64("9223372036854775807"), Some(i64::MAX));
    assert_eq!(parse_i64("-9223372036854775808"), Some(i64::MIN));
    assert_eq!(parse_i64("9223372036854775808"), None);
    assert_eq!(parse_i64("-9223372036854775809"), None);
}

#[test]
fn rejects_malformed_numbers() {
    assert_eq!(parse_i64(""), None);
    assert_eq!(parse_i64("-"), None);
    assert_eq!(parse_i64("+"), None);
    assert_eq!(parse_i64("12a"), None);
    assert_eq!(parse_i64(" 12"), None);
    assert_eq!(parse_i64("1 2"), None);
}

#[test]
fn recognizes_digit_strings() {
    assert!(is_digit_string("0123456789"));
    assert!(!is_digit_string(""));
    assert!(!is_digit_string("12.5"));
    assert!(!is_digit_string("-1"));
}

#[test]
fn finds_nonzero_characters() {
    assert!(has_nonzero_char("0001"));
    assert!(!has_nonzero_char("0000"));
    assert!(!has_nonzero_char(""));
}

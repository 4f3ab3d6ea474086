use befunge93::numeric::{parse_i64, render_number};

#[test]
fn render_zero_and_positive() {
    assert_eq!(render_number(0), b"0 ".to_vec());
    assert_eq!(render_number(7), b"7 ".to_vec());
    assert_eq!(render_number(1234567890), b"1234567890 ".to_vec());
}

#[test]
fn render_negative_and_extremes() {
    assert_eq!(render_number(-12), b"-12 ".to_vec());
    assert_eq!(render_number(i64::MAX), b"9223372036854775807 ".to_vec());
    assert_eq!(render_number(i64::MIN), b"-9223372036854775808 ".to_vec());
}

#[test]
fn parse_plain_and_signed() {
    assert_eq!(parse_i64("42"), Some(42));
    assert_eq!(parse_i64("+5"), Some(5));
    assert_eq!(parse_i64("-7"), Some(-7));
    assert_eq!(parse_i64("-0"), Some(0));
    assert_eq!(parse_i64("007"), Some(7));
}

#[test]
fn parse_trims_whitespace() {
    assert_eq!(parse_i64(" 42 \n"), Some(42));
    assert_eq!(parse_i64("\t-3\r\n"), Some(-3));
}

#[test]
fn parse_rejects_malformed_text() {
    assert_eq!(parse_i64(""), None);
    assert_eq!(parse_i64("   "), None);
    assert_eq!(parse_i64("+"), None);
    assert_eq!(parse_i64("-"), None);
    assert_eq!(parse_i64("1 2"), None);
    assert_eq!(parse_i64("12a"), None);
    assert_eq!(parse_i64("--5"), None);
}

#[test]
fn parse_handles_the_64_bit_boundaries() {
    assert_eq!(parse_i64("9223372036854775807"), Some(i64::MAX));
    assert_eq!(parse_i64("9223372036854775808"), None);
    assert_eq!(parse_i64("-9223372036854775808"), Some(i64::MIN));
    assert_eq!(parse_i64("-9223372036854775809"), None);
    assert_eq!(parse_i64("0000000000000000000000042"), Some(42));
}

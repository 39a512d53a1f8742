use fanfare::decimal::{parse_signed, parse_unsigned, render_i64, render_u64};

#[test]
fn parse_unsigned_accepts_digits_up_to_the_limit() {
    assert_eq!(parse_unsigned("0", 0), Some(0));
    assert_eq!(parse_unsigned("1", 0), None);
    assert_eq!(parse_unsigned("255", 255), Some(255));
    assert_eq!(parse_unsigned("256", 255), None);
    assert_eq!(parse_unsigned("+255", 255), Some(255));
    assert_eq!(parse_unsigned("0255", 255), Some(255));
    assert_eq!(parse_unsigned("18446744073709551615", u64::MAX), Some(u64::MAX));
    assert_eq!(parse_unsigned("18446744073709551616", u64::MAX), None);
    assert_eq!(parse_unsigned("5", 4), None);
    assert_eq!(parse_unsigned("10", 9), None);
}

#[test]
fn parse_unsigned_refuses_signs_and_other_characters() {
    for text in ["", "+", "-", "-1", "-0", "1a", "a", " 1", "1 ", "+ 1", "++1", "1.0"] {
        assert_eq!(parse_unsigned(text, u64::MAX), None);
    }
}

#[test]
fn parse_signed_accepts_either_sign() {
    assert_eq!(parse_signed("-128", -128, 127), Some(-128));
    assert_eq!(parse_signed("-129", -128, 127), None);
    assert_eq!(parse_signed("127", -128, 127), Some(127));
    assert_eq!(parse_signed("+127", -128, 127), Some(127));
    assert_eq!(parse_signed("128", -128, 127), None);
    assert_eq!(parse_signed("-0", -128, 127), Some(0));
    assert_eq!(parse_signed("-9223372036854775808", i64::MIN, i64::MAX), Some(i64::MIN));
    assert_eq!(parse_signed("-9223372036854775807", i64::MIN, i64::MAX), Some(i64::MIN + 1));
    assert_eq!(parse_signed("9223372036854775807", i64::MIN, i64::MAX), Some(i64::MAX));
    assert_eq!(parse_signed("-9223372036854775809", i64::MIN, i64::MAX), None);
}

#[test]
fn parse_signed_keeps_to_any_range() {
    assert_eq!(parse_signed("-5", -10, -3), Some(-5));
    assert_eq!(parse_signed("-2", -10, -3), None);
    assert_eq!(parse_signed("0", -10, -3), None);
    assert_eq!(parse_signed("5", 3, 10), Some(5));
    assert_eq!(parse_signed("2", 3, 10), None);
    assert_eq!(parse_signed("-5", 3, 10), None);
    assert_eq!(parse_signed("-0", 0, 10), None);
    assert_eq!(parse_signed("0", 0, 10), Some(0));
}

#[test]
fn render_writes_no_sign_and_no_leading_zero() {
    assert_eq!(render_u64(0), "0");
    assert_eq!(render_u64(7), "7");
    assert_eq!(render_u64(10), "10");
    assert_eq!(render_u64(1_000_000), "1000000");
    assert_eq!(render_u64(u64::MAX), "18446744073709551615");
    assert_eq!(render_i64(0), "0");
    assert_eq!(render_i64(42), "42");
    assert_eq!(render_i64(-42), "-42");
    assert_eq!(render_i64(i64::MIN), "-9223372036854775808");
    assert_eq!(render_i64(i64::MAX), "9223372036854775807");
}

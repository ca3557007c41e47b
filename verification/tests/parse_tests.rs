use tik::decimal::parse_u32;
use tik::decimal::u64_to_dec;
use tik::decimal::u64_to_two_digits;

#[test]
fn parse_u32_plain_digits() {
    assert_eq!(parse_u32("6"), Some(6));
    assert_eq!(parse_u32("4294967295"), Some(u32::MAX));
}

#[test]
fn parse_u32_leading_plus() {
    assert_eq!(parse_u32("+12"), Some(12));
}

#[test]
fn parse_u32_rejects_other_shapes() {
    assert_eq!(parse_u32(""), None);
    assert_eq!(parse_u32("+"), None);
    assert_eq!(parse_u32("-1"), None);
    assert_eq!(parse_u32("12a"), None);
    assert_eq!(parse_u32(" 12"), None);
}

#[test]
fn parse_u32_rejects_overflow() {
    assert_eq!(parse_u32("4294967296"), None);
    assert_eq!(parse_u32("99999999999999999999"), None);
}

#[test]
fn decimal_rendering() {
    assert_eq!(u64_to_dec(0), "0");
    assert_eq!(u64_to_dec(7), "7");
    assert_eq!(u64_to_dec(90210), "90210");
    assert_eq!(u64_to_two_digits(5), "05");
    assert_eq!(u64_to_two_digits(42), "42");
    assert_eq!(u64_to_two_digits(100), "100");
}

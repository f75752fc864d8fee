use sunwalker_invoker::strutil::{i32_to_dec, parse_i32, str_eq_str, str_starts_with, u64_to_dec};

#[test]
fn decimal_rendering() {
    assert_eq!(u64_to_dec(0), "0");
    assert_eq!(u64_to_dec(7), "7");
    assert_eq!(u64_to_dec(1234567890123456789), "1234567890123456789");
    assert_eq!(i32_to_dec(-42), "-42");
    assert_eq!(i32_to_dec(i32::MIN), "-2147483648");
    assert_eq!(i32_to_dec(i32::MAX), "2147483647");
}

#[test]
fn decimal_parsing() {
    assert_eq!(parse_i32("0"), Some(0));
    assert_eq!(parse_i32("+5"), Some(5));
    assert_eq!(parse_i32("-2147483648"), Some(i32::MIN));
    assert_eq!(parse_i32("2147483647"), Some(i32::MAX));
    assert_eq!(parse_i32("2147483648"), None);
    assert_eq!(parse_i32("-2147483649"), None);
    assert_eq!(parse_i32(""), None);
    assert_eq!(parse_i32("-"), None);
    assert_eq!(parse_i32("12a"), None);
    assert_eq!(parse_i32("99999999999999999999"), None);
}

#[test]
fn rendering_parses_back() {
    for n in [0i32, 1, -1, 4097, -4097, i32::MIN, i32::MAX] {
        assert_eq!(parse_i32(&i32_to_dec(n)), Some(n));
    }
}

#[test]
fn string_helpers() {
    assert!(str_eq_str("abc", "abc"));
    assert!(!str_eq_str("abc", "abd"));
    assert!(!str_eq_str("abc", "ab"));
    assert!(str_starts_with("/tmp/worker/overlay/dev", "/tmp/worker/overlay"));
    assert!(!str_starts_with("/tmp/work", "/tmp/worker"));
}

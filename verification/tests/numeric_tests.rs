use wifi_scanner::numeric::parse_i32;

#[test]
fn plain_digits_parse() {
    assert_eq!(parse_i32("72"), Some(72));
    assert_eq!(parse_i32("0"), Some(0));
    assert_eq!(parse_i32("007"), Some(7));
}

#[test]
fn signs_are_accepted() {
    assert_eq!(parse_i32("+15"), Some(15));
    assert_eq!(parse_i32("-40"), Some(-40));
}

#[test]
fn limits_of_the_type_are_exact() {
    assert_eq!(parse_i32("2147483647"), Some(i32::MAX));
    assert_eq!(parse_i32("-2147483648"), Some(i32::MIN));
    assert_eq!(parse_i32("2147483648"), None);
    assert_eq!(parse_i32("-2147483649"), None);
    assert_eq!(parse_i32("99999999999999999999"), None);
}

#[test]
fn malformed_numbers_are_rejected() {
    assert_eq!(parse_i32(""), None);
    assert_eq!(parse_i32("+"), None);
    assert_eq!(parse_i32("-"), None);
    assert_eq!(parse_i32(" 5"), None);
    assert_eq!(parse_i32("5 "), None);
    assert_eq!(parse_i32("72%"), None);
    assert_eq!(parse_i32("1x2"), None);
    assert_eq!(parse_i32("+-3"), None);
}

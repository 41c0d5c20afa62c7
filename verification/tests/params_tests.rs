use powsim::params::parse_unsigned_integer;

#[test]
fn parses_given_values_and_defaults() {
    assert_eq!(Some(42), parse_unsigned_integer(Some("42"), "8", 100000));
    assert_eq!(Some(8), parse_unsigned_integer(None, "8", 100000));
    assert_eq!(Some(0), parse_unsigned_integer(Some("0"), "8", 100000));
    assert_eq!(
        Some(100000),
        parse_unsigned_integer(Some("100000"), "8", 100000)
    );
}

#[test]
fn rejects_malformed_and_oversized_values() {
    assert_eq!(None, parse_unsigned_integer(Some(""), "8", 100000));
    assert_eq!(None, parse_unsigned_integer(Some("abc"), "8", 100000));
    assert_eq!(None, parse_unsigned_integer(Some("12a"), "8", 100000));
    assert_eq!(None, parse_unsigned_integer(Some("-3"), "8", 100000));
    assert_eq!(None, parse_unsigned_integer(Some("100001"), "8", 100000));
    assert_eq!(
        None,
        parse_unsigned_integer(Some("99999999999999999999999"), "8", u64::MAX)
    );
    assert_eq!(
        Some(u64::MAX),
        parse_unsigned_integer(Some("18446744073709551615"), "8", u64::MAX)
    );
}

use project_tracker::cookie::{make_cookie_value, parse_cookie_value};

#[test]
fn cookie_round_trip() {
    assert_eq!(parse_cookie_value(&make_cookie_value(1)), Some(1));
    assert_eq!(parse_cookie_value(&make_cookie_value(42)), Some(42));
    assert_eq!(
        parse_cookie_value(&make_cookie_value(u64::MAX)),
        Some(u64::MAX)
    );
}

#[test]
fn cookie_value_is_plain_decimal() {
    assert_eq!(make_cookie_value(0), "0");
    assert_eq!(make_cookie_value(7), "7");
    assert_eq!(make_cookie_value(120), "120");
    assert_eq!(make_cookie_value(u64::MAX), "18446744073709551615");
}

#[test]
fn parse_rejects_non_numeric_values() {
    assert_eq!(parse_cookie_value(""), None);
    assert_eq!(parse_cookie_value("abc"), None);
    assert_eq!(parse_cookie_value("12a"), None);
    assert_eq!(parse_cookie_value("-1"), None);
    assert_eq!(parse_cookie_value("+1"), None);
    assert_eq!(parse_cookie_value("1 "), None);
}

#[test]
fn parse_accepts_leading_zeros() {
    assert_eq!(parse_cookie_value("007"), Some(7));
    assert_eq!(parse_cookie_value("000"), Some(0));
}

#[test]
fn parse_rejects_numbers_out_of_range() {
    assert_eq!(parse_cookie_value("18446744073709551615"), Some(u64::MAX));
    assert_eq!(parse_cookie_value("18446744073709551616"), None);
    assert_eq!(parse_cookie_value("99999999999999999999999"), None);
}

use project_tracker::serialise::parse_date;

#[test]
fn parse_date_reformats_wire_date() {
    let r = parse_date("2020-01-01T10:00:00");
    assert_eq!(r, Ok(String::from("2020-01-01 10:00:00")));
}

#[test]
fn parse_date_keeps_every_field() {
    let r = parse_date("1999-12-31T23:59:59");
    assert_eq!(r, Ok(String::from("1999-12-31 23:59:59")));
}

#[test]
fn parse_date_rejects_empty() {
    assert!(parse_date("").is_err());
}

#[test]
fn parse_date_rejects_wrong_separator() {
    assert!(parse_date("2020-01-01 10:00:00").is_err());
    assert!(parse_date("2020/01/01T10:00:00").is_err());
}

#[test]
fn parse_date_rejects_month_thirteen() {
    assert!(parse_date("2020-13-01T10:00:00").is_err());
}

#[test]
fn parse_date_rejects_month_zero() {
    assert!(parse_date("2020-00-01T10:00:00").is_err());
}

#[test]
fn parse_date_rejects_day_out_of_month() {
    assert!(parse_date("2021-04-31T10:00:00").is_err());
    assert!(parse_date("2021-02-29T10:00:00").is_err());
}

#[test]
fn parse_date_accepts_leap_day() {
    let r = parse_date("2020-02-29T00:00:00");
    assert_eq!(r, Ok(String::from("2020-02-29 00:00:00")));
}

#[test]
fn parse_date_rejects_century_non_leap_day() {
    assert!(parse_date("1900-02-29T00:00:00").is_err());
    assert_eq!(
        parse_date("2000-02-29T00:00:00"),
        Ok(String::from("2000-02-29 00:00:00"))
    );
}

#[test]
fn parse_date_rejects_bad_time() {
    assert!(parse_date("2020-01-01T24:00:00").is_err());
    assert!(parse_date("2020-01-01T10:60:00").is_err());
    assert!(parse_date("2020-01-01T10:00:60").is_err());
}

#[test]
fn parse_date_rejects_truncated_input() {
    assert!(parse_date("2020-01-01T10:00").is_err());
    assert!(parse_date("2020-01-01T10:00:000").is_err());
}

#[test]
fn parse_date_rejects_letters_in_digits() {
    assert!(parse_date("20x0-01-01T10:00:00").is_err());
}

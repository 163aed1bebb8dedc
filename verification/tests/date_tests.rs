use whatwg_datetime::{parse_date, Date};

#[test]
fn test_parse_date() {
    assert_eq!(parse_date("2011-11-18"), Date::new_opt(2011, 11, 18));
}

#[test]
fn test_parse_date_leap_year() {
    assert_eq!(parse_date("2012-02-29"), Date::new_opt(2012, 2, 29));
}

#[test]
fn test_parse_date_fails_not_leap_year() {
    assert_eq!(parse_date("2007-02-29"), None);
}

#[test]
fn test_parse_date_fails_invalid_month() {
    assert_eq!(parse_date("2011-00-19"), None);
}

#[test]
fn test_parse_date_fails_invalid_day_length() {
    assert_eq!(parse_date("2011-11-0"), None);
}

#[test]
fn test_parse_date_fails_invalid_day_upper_bound() {
    assert_eq!(parse_date("2011-11-32"), None);
}

#[test]
fn test_parse_date_fails_invalid_separator() {
    assert_eq!(parse_date("2011-11/19"), None);
}

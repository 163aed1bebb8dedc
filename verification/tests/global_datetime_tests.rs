use whatwg_datetime::{parse_global_datetime, Date, GlobalDateTime, Time};

#[test]
fn test_parse_global_datetime_t_hm() {
    assert_eq!(
        parse_global_datetime("2004-12-31T12:31"),
        Some(GlobalDateTime::new(
            Date::new_opt(2004, 12, 31).unwrap(),
            Time::new_opt(12, 31, 0, 0).unwrap(),
        ))
    );
}

#[test]
fn test_parse_global_datetime_t_hms() {
    assert_eq!(
        parse_global_datetime("2004-12-31T12:31:59"),
        Some(GlobalDateTime::new(
            Date::new_opt(2004, 12, 31).unwrap(),
            Time::new_opt(12, 31, 59, 0).unwrap(),
        ))
    );
}

#[test]
fn test_parse_global_datetime_t_hms_milliseconds() {
    assert_eq!(
        parse_global_datetime("2027-11-29T12:31:59.123"),
        Some(GlobalDateTime::new(
            Date::new_opt(2027, 11, 29).unwrap(),
            Time::new_opt(12, 31, 59, 123).unwrap(),
        ))
    );
}

#[test]
fn test_parse_global_datetime_t_hms_z() {
    assert_eq!(
        parse_global_datetime("2004-12-31T12:31:59Z"),
        Some(GlobalDateTime::new(
            Date::new_opt(2004, 12, 31).unwrap(),
            Time::new_opt(12, 31, 59, 0).unwrap(),
        ))
    );
}

#[test]
fn test_parse_global_datetime_space_hm() {
    assert_eq!(
        parse_global_datetime("2004-12-31 12:31"),
        Some(GlobalDateTime::new(
            Date::new_opt(2004, 12, 31).unwrap(),
            Time::new_opt(12, 31, 0, 0).unwrap(),
        ))
    );
}

#[test]
fn test_parse_global_datetime_space_hms() {
    assert_eq!(
        parse_global_datetime("2004-12-31 12:31:59"),
        Some(GlobalDateTime::new(
            Date::new_opt(2004, 12, 31).unwrap(),
            Time::new_opt(12, 31, 59, 0).unwrap(),
        ))
    );
}

#[test]
fn test_parse_global_datetime_space_hms_milliseconds() {
    assert_eq!(
        parse_global_datetime("2004-12-31 12:31:59.123"),
        Some(GlobalDateTime::new(
            Date::new_opt(2004, 12, 31).unwrap(),
            Time::new_opt(12, 31, 59, 123).unwrap(),
        ))
    );
}

#[test]
fn test_parse_global_datetime_fails_invalid_date() {
    assert_eq!(parse_global_datetime("2004/13/31T12:31"), None);
}

#[test]
fn test_parse_global_datetime_fails_invalid_delimiter() {
    assert_eq!(parse_global_datetime("1986-08-14/12-31"), None);
}

#[test]
fn test_parse_global_datetime_fails_invalid_time() {
    assert_eq!(parse_global_datetime("2006-06-05T24:31"), None);
}

#[test]
fn test_parse_global_datetime_fails_invalid_time_long_pos() {
    assert_eq!(parse_global_datetime("2006-06-05T24:31:5999"), None);
}

#[test]
fn test_parse_global_datetime_fails_invalid_timezone_offset_1() {
    assert_eq!(parse_global_datetime("2019-12-31T11:17+24:00"), None);
}

#[test]
fn test_parse_global_datetime_fails_invalid_timezone_offset_2() {
    assert_eq!(parse_global_datetime("1456-02-24T11:17C"), None);
}

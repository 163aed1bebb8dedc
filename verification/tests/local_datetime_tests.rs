use whatwg_datetime::{parse_local_datetime, Date, LocalDateTime, Time};

#[test]
pub fn test_parse_local_datetime_delimited_t_date_hm() {
    assert_eq!(
        parse_local_datetime("2004-12-31T12:31"),
        Some(LocalDateTime::new(
            Date::new_opt(2004, 12, 31).unwrap(),
            Time::new_opt(12, 31, 0, 0).unwrap(),
        ))
    );
}

#[test]
pub fn test_parse_local_datetime_delimited_t_date_hms() {
    assert_eq!(
        parse_local_datetime("2004-12-31T12:31:59"),
        Some(LocalDateTime::new(
            Date::new_opt(2004, 12, 31).unwrap(),
            Time::new_opt(12, 31, 59, 0).unwrap(),
        ))
    );
}

#[test]
pub fn test_parse_local_datetime_delimited_t_date_hms_milliseconds() {
    assert_eq!(
        parse_local_datetime("2011-11-18T14:54:39.929"),
        Some(LocalDateTime::new(
            Date::new_opt(2011, 11, 18).unwrap(),
            Time::new_opt(14, 54, 39, 929).unwrap(),
        ))
    )
}

#[test]
pub fn test_parse_local_datetime_delimited_space_date_hm() {
    assert_eq!(
        parse_local_datetime("2011-11-18 14:54"),
        Some(LocalDateTime::new(
            Date::new_opt(2011, 11, 18).unwrap(),
            Time::new_opt(14, 54, 0, 0).unwrap(),
        ))
    )
}

#[test]
pub fn test_parse_local_datetime_delimited_space_date_hms() {
    assert_eq!(
        parse_local_datetime("2011-11-18 14:54:39"),
        Some(LocalDateTime::new(
            Date::new_opt(2011, 11, 18).unwrap(),
            Time::new_opt(14, 54, 39, 0).unwrap(),
        ))
    )
}

#[test]
pub fn test_parse_local_datetime_delimited_space_date_hms_milliseconds() {
    assert_eq!(
        parse_local_datetime("2011-11-18 14:54:39.929"),
        Some(LocalDateTime::new(
            Date::new_opt(2011, 11, 18).unwrap(),
            Time::new_opt(14, 54, 39, 929).unwrap(),
        ))
    )
}

#[test]
pub fn test_parse_local_datetime_fails_invalid_delimiter() {
    assert_eq!(parse_local_datetime("2011-11-18W14-54-39"), None);
}

#[test]
pub fn test_parse_local_datetime_fails_invalid_date() {
    assert_eq!(parse_local_datetime("2011/11/18T14:54:39.929"), None);
}

#[test]
pub fn test_parse_local_datetime_fails_invalid_time() {
    assert_eq!(parse_local_datetime("2011-11-18T14/54/39"), None);
}

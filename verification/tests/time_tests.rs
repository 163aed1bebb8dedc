use whatwg_datetime::{parse_time, parse_time_component, Time};

#[test]
fn test_parse_time_succeeds_hm() {
    assert_eq!(parse_time("12:31"), Time::new_opt(12, 31, 0, 0));
}

#[test]
fn test_parse_time_succeeds_hms() {
    assert_eq!(parse_time("12:31:59"), Time::new_opt(12, 31, 59, 0));
}

#[test]
fn test_parse_time_succeeds_hms_fractional_seconds() {
    assert_eq!(parse_time("14:54:39.929"), Time::new_opt(14, 54, 39, 929));
}

#[test]
fn test_parse_time_fails_multiple_decimals() {
    assert_eq!(parse_time("12:31:59...29"), None);
}

#[test]
fn test_parse_time_fails_hour_length() {
    assert_eq!(parse_time("123:31:59"), None);
}

#[test]
fn test_parse_time_fails_hour_value_upper_bound() {
    assert_eq!(parse_time("24:31:59"), None);
}

#[test]
fn test_parse_time_fails_delimiter() {
    assert_eq!(parse_time("12-31-59"), None);
}

#[test]
fn test_parse_time_fails_minute_length() {
    assert_eq!(parse_time("12:311:59"), None);
}

#[test]
fn test_parse_time_fails_minute_value_upper_bound() {
    assert_eq!(parse_time("12:79:59"), None);
}

#[test]
fn test_parse_time_fails_seconds_length() {
    assert_eq!(parse_time("12:31:591"), None);
}

#[test]
fn test_parse_time_fails_seconds_value_upper_bound() {
    assert_eq!(parse_time("12:31:79"), None);
}

#[test]
fn test_parse_time_component() {
    let mut position = 0usize;
    let parsed = parse_time_component("12:31:59", &mut position);

    assert_eq!(parsed, Time::new_opt(12, 31, 59, 0));
}

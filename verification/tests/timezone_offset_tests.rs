use whatwg_datetime::{
    parse_timezone_offset, parse_timezone_offset_component, TimeZoneOffset, TimeZoneSign,
};

#[test]
pub fn test_parse_timezone_sign_tryfrom_char_positive() {
    let parsed = TimeZoneSign::try_from('+');
    assert_eq!(parsed, Ok(TimeZoneSign::Positive));
}

#[test]
pub fn test_parse_timezone_sign_tryfrom_char_negative() {
    let parsed = TimeZoneSign::try_from('-');
    assert_eq!(parsed, Ok(TimeZoneSign::Negative));
}

#[test]
pub fn test_parse_timezone_sign_tryfrom_char_fails() {
    let parsed = TimeZoneSign::try_from('a');
    assert_eq!(parsed, Err(()));
}

#[test]
pub fn test_parse_timezone_offset() {
    let parsed = parse_timezone_offset("+01:00");
    assert_eq!(parsed, TimeZoneOffset::new_opt(1, 0));
}

#[test]
pub fn test_parse_timezone_offset_z() {
    let parsed = parse_timezone_offset("Z");
    assert_eq!(parsed, TimeZoneOffset::new_opt(0, 0));
}

#[test]
pub fn test_parse_timezone_offset_plus_1_hour_colon() {
    let mut position = 0usize;
    let parsed = parse_timezone_offset_component("+01:00", &mut position);

    assert_eq!(parsed, TimeZoneOffset::new_opt(1, 0));
}

#[test]
pub fn test_parse_timezone_offset_neg_1_hour_colon() {
    let mut position = 0usize;
    let parsed = parse_timezone_offset_component("-01:00", &mut position);

    assert_eq!(parsed, TimeZoneOffset::new_opt(-1, 0));
}

#[test]
pub fn test_parse_timezone_offset_plus_1_hour_no_delim() {
    let mut position = 0usize;
    let parsed = parse_timezone_offset_component("+0100", &mut position);

    assert_eq!(parsed, TimeZoneOffset::new_opt(1, 0));
}

#[test]
fn parse_timezone_offset_component_neg_1_hour_no_delim() {
    let mut position = 0usize;
    let parsed = parse_timezone_offset_component("-0100", &mut position);

    assert_eq!(parsed, TimeZoneOffset::new_opt(-1, 0));
}

#[test]
fn parse_timezone_offset_fails_not_colon() {
    let mut position = 0usize;
    let parsed = parse_timezone_offset_component("-01/", &mut position);

    assert_eq!(parsed, None);
}

#[test]
fn parse_timezone_offset_fails_invalid_min_length() {
    let mut position = 0usize;
    let parsed = parse_timezone_offset_component("-010", &mut position);

    assert_eq!(parsed, None);
}

#[test]
fn parse_timezone_offset_fails_colon_invalid_length_empty() {
    let mut position = 0usize;
    let parsed = parse_timezone_offset_component("-01:", &mut position);

    assert_eq!(parsed, None);
}

#[test]
fn parse_timezone_offset_fails_colon_invalid_length() {
    let mut position = 0usize;
    let parsed = parse_timezone_offset_component("-01:0", &mut position);

    assert_eq!(parsed, None);
}

#[test]
fn parse_timezone_offset_fails_invalid_length() {
    let mut position = 0usize;
    let parsed = parse_timezone_offset_component("-01000", &mut position);

    assert_eq!(parsed, None);
}

#[test]
fn parse_timezone_offset_fails_invalid_hour_upper_bound() {
    let mut position = 0usize;
    let parsed = parse_timezone_offset_component("+24:00", &mut position);

    assert_eq!(parsed, None);
}

#[test]
fn parse_timezone_offset_fails_invalid_minute_upper_bound() {
    let mut position = 0usize;
    let parsed = parse_timezone_offset_component("-00:67", &mut position);

    assert_eq!(parsed, None);
}

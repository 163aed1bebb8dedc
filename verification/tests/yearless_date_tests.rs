use whatwg_datetime::{parse_yearless_date, parse_yearless_date_component, YearlessDate};

#[test]
fn test_parse_yearless_date() {
    assert_eq!(parse_yearless_date("11-18"), YearlessDate::new_opt(11, 18));
}

#[test]
fn test_parse_yearless_date_fails_empty_string() {
    assert_eq!(parse_yearless_date(""), None);
}

#[test]
fn test_parse_yearless_date_fails_separator() {
    assert_eq!(parse_yearless_date("11/18"), None);
}

#[test]
fn test_parse_yearless_date_fails_month_upper_bound() {
    assert_eq!(parse_yearless_date("13-01"), None);
}

#[test]
fn test_parse_yearless_date_fails_month_length() {
    assert_eq!(parse_yearless_date("1-01"), None);
}

#[test]
fn test_parse_yearless_date_fails_day_lower_bound() {
    assert_eq!(parse_yearless_date("01-00"), None);
}

#[test]
fn test_parse_yearless_date_fails_day_upper_bound() {
    assert_eq!(parse_yearless_date("01-32"), None);
}

#[test]
fn test_parse_yearless_date_fails_day_length() {
    assert_eq!(parse_yearless_date("01-9"), None);
}

#[test]
fn test_parse_yearless_date_component() {
    let mut position = 0usize;
    let parsed = parse_yearless_date_component("12-31", &mut position);

    assert_eq!(parsed, YearlessDate::new_opt(12, 31));
}

#[test]
fn test_parse_yearless_date_component_fails_empty_string() {
    let mut position = 0usize;
    let parsed = parse_yearless_date_component("", &mut position);

    assert_eq!(parsed, None);
}

#[test]
fn test_parse_yearless_date_only_one_separator() {
    let mut position = 0usize;
    let parsed = parse_yearless_date_component("-", &mut position);

    assert_eq!(parsed, None);
}

use whatwg_datetime::{parse_month, parse_month_component, YearMonth};

#[test]
fn test_parse_month_string() {
    let parsed = parse_month("2004-12");
    assert_eq!(parsed, YearMonth::new_opt(2004, 12));
}

#[test]
fn test_parse_month_string_fails_invalid_month() {
    let parsed = parse_month("2004-2a");
    assert_eq!(parsed, None);
}

#[test]
fn test_parse_month_string_fails() {
    let parsed = parse_month("2004-13");
    assert_eq!(parsed, None);
}

#[test]
fn test_parse_month_component() {
    let mut position = 0usize;
    let parsed = parse_month_component("2004-12", &mut position);

    assert_eq!(parsed, YearMonth::new_opt(2004, 12));
}

#[test]
fn test_parse_month_component_fails_year_lt_4_digits() {
    let mut position = 0usize;
    let parsed = parse_month_component("200-12", &mut position);

    assert_eq!(parsed, None);
}

#[test]
fn test_parse_month_component_fails_invalid_month_lower_bound() {
    let mut position = 0usize;
    let parsed = parse_month_component("2004-0", &mut position);

    assert_eq!(parsed, None);
}

#[test]
fn test_parse_month_component_fails_invalid_month_upper_bound() {
    let mut position = 0usize;
    let parsed = parse_month_component("2004-13", &mut position);

    assert_eq!(parsed, None);
}

#[test]
fn test_parse_month_component_fails_invalid_month_syntax() {
    let mut position = 0usize;
    let parsed = parse_month_component("2004-1a", &mut position);

    assert_eq!(parsed, None);
}

#[test]
fn test_parse_month_component_fails_invalid_separator() {
    let mut position = 0usize;
    let parsed = parse_month_component("2004/12", &mut position);

    assert_eq!(parsed, None);
}

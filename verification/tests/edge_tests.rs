use whatwg_datetime::{
    max_days_in_month_year, parse_date, parse_date_component, parse_global_datetime,
    parse_local_datetime, parse_month, parse_month_component, parse_time, parse_time_component,
    parse_timezone_offset, parse_week, parse_yearless_date, Date, GlobalDateTime, LocalDateTime,
    Time, TimeZoneOffset, YearMonth, YearWeek, YearlessDate,
};

#[test]
fn date_rejects_day_not_two_digits() {
    assert_eq!(parse_date("2012-11-1"), None);
}

#[test]
fn date_rejects_year_zero() {
    assert_eq!(parse_date("0000-11-02"), None);
}

#[test]
fn date_rejects_month_zero() {
    assert_eq!(parse_date("2011-00-19"), None);
}

#[test]
fn date_accepts_year_one() {
    assert_eq!(parse_date("0001-01-01"), Date::new_opt(1, 1, 1));
}

#[test]
fn date_accepts_year_with_more_than_four_digits() {
    let parsed = parse_date("123456-01-31").unwrap();
    assert_eq!(parsed.year(), 123456);
    assert_eq!(parsed.month(), 1);
    assert_eq!(parsed.day(), 31);
}

#[test]
fn date_rejects_year_too_large_for_year_type() {
    assert_eq!(parse_date("99999999999999999999-01-01"), None);
}

#[test]
fn date_rejects_trailing_content() {
    assert_eq!(parse_date("2011-11-18x"), None);
}

#[test]
fn month_accepts_minimal_and_reports_components() {
    let parsed = parse_month("2011-11").unwrap();
    assert_eq!(parsed.year(), 2011);
    assert_eq!(parsed.month(), 11);
}

#[test]
fn month_rejects_year_value_overflow() {
    assert_eq!(parse_month("99999999999999999999-01"), None);
}

#[test]
fn month_component_and_date_component_agree_on_shared_prefix() {
    let mut month_position = 0usize;
    let month_only = parse_month_component("2011-11-18", &mut month_position).unwrap();
    let mut date_position = 0usize;
    let date = parse_date_component("2011-11-18", &mut date_position).unwrap();

    assert_eq!(month_only.year(), date.year());
    assert_eq!(month_only.month(), date.month());
    assert_eq!(month_position, 7);
    assert_eq!(date_position, 10);
}

#[test]
fn time_accepts_hours_and_minutes_only() {
    let parsed = parse_time("14:59").unwrap();
    assert_eq!(parsed.hour(), 14);
    assert_eq!(parsed.minute(), 59);
    assert_eq!(parsed.second(), 0);
    assert_eq!(parsed.millisecond(), 0);
}

#[test]
fn time_accepts_fractional_seconds() {
    let parsed = parse_time("14:59:39.929").unwrap();
    assert_eq!(parsed.second(), 39);
    assert_eq!(parsed.millisecond(), 929);
}

#[test]
fn time_takes_short_fraction_as_is() {
    assert_eq!(parse_time("00:00:00.9"), Time::new_opt(0, 0, 0, 9));
    assert_eq!(parse_time("00:00:00.09"), Time::new_opt(0, 0, 0, 9));
}

#[test]
fn time_uses_only_first_three_fraction_digits() {
    assert_eq!(parse_time("12:31:59.92953"), Time::new_opt(12, 31, 59, 929));
}

#[test]
fn time_rejects_dot_without_fraction_digits() {
    assert_eq!(parse_time("12:31:59."), None);
}

#[test]
fn time_rejects_one_digit_seconds() {
    assert_eq!(parse_time("12:31:9"), None);
}

#[test]
fn time_component_leaves_cursor_after_seconds() {
    let mut position = 0usize;
    let parsed = parse_time_component("12:31:59+aa", &mut position);
    assert_eq!(parsed, Time::new_opt(12, 31, 59, 0));
    assert_eq!(position, 8);
}

#[test]
fn timezone_offset_minus_seven() {
    assert_eq!(parse_timezone_offset("-07:00"), TimeZoneOffset::new_opt(-7, 0));
}

#[test]
fn timezone_offset_rejects_hour_24_whole_string() {
    assert_eq!(parse_timezone_offset("+24:00"), None);
}

#[test]
fn timezone_offset_negative_minutes_carry_the_sign() {
    let parsed = parse_timezone_offset("-07:30").unwrap();
    assert_eq!(parsed.hour(), -7);
    assert_eq!(parsed.minute(), -30);
}

#[test]
fn timezone_offset_empty_input_is_zero_offset() {
    assert_eq!(parse_timezone_offset(""), TimeZoneOffset::new_opt(0, 0));
}

#[test]
fn global_datetime_zero_offset_leaves_instant_unchanged() {
    assert_eq!(
        parse_global_datetime("2011-11-18T14:54Z"),
        Some(GlobalDateTime::new(
            Date::new_opt(2011, 11, 18).unwrap(),
            Time::new_opt(14, 54, 0, 0).unwrap(),
        ))
    );
}

#[test]
fn global_datetime_positive_offset_rolls_date_backward() {
    assert_eq!(
        parse_global_datetime("2011-11-18T00:30+01:00"),
        Some(GlobalDateTime::new(
            Date::new_opt(2011, 11, 17).unwrap(),
            Time::new_opt(23, 30, 0, 0).unwrap(),
        ))
    );
}

#[test]
fn global_datetime_negative_offset_rolls_date_forward() {
    assert_eq!(
        parse_global_datetime("2011-11-18T23:30-01:00"),
        Some(GlobalDateTime::new(
            Date::new_opt(2011, 11, 19).unwrap(),
            Time::new_opt(0, 30, 0, 0).unwrap(),
        ))
    );
}

#[test]
fn global_datetime_rolls_backward_onto_leap_day() {
    assert_eq!(
        parse_global_datetime("2012-03-01T00:30+01:00"),
        Some(GlobalDateTime::new(
            Date::new_opt(2012, 2, 29).unwrap(),
            Time::new_opt(23, 30, 0, 0).unwrap(),
        ))
    );
}

#[test]
fn global_datetime_rolls_backward_across_year_one() {
    let parsed = parse_global_datetime("0001-01-01T00:00+01:00").unwrap();
    assert_eq!(parsed.date().year(), -1);
    assert_eq!(parsed.date().month(), 12);
    assert_eq!(parsed.date().day(), 31);
    assert_eq!(parsed.time().hour(), 23);
    assert_eq!(parsed.time().minute(), 0);
}

#[test]
fn global_datetime_keeps_seconds_through_offset() {
    assert_eq!(
        parse_global_datetime("2019-06-30T23:59:59.500-00:02"),
        Some(GlobalDateTime::new(
            Date::new_opt(2019, 7, 1).unwrap(),
            Time::new_opt(0, 1, 59, 500).unwrap(),
        ))
    );
}

#[test]
fn week_accepts_short_year() {
    let parsed = parse_week("4-W01").unwrap();
    assert_eq!(parsed.year(), 4);
    assert_eq!(parsed.week(), 1);
}

#[test]
fn week_rejects_trailing_content() {
    assert_eq!(parse_week("2004-W53x"), None);
}

#[test]
fn week_rejects_year_beyond_calendar_range() {
    assert_eq!(parse_week("999999-W01"), None);
}

#[test]
fn week_rejects_year_value_overflow() {
    assert_eq!(parse_week("99999999999999999999-W01"), None);
}

#[test]
fn week_rejects_empty_year() {
    assert_eq!(parse_week("-W01"), None);
}

#[test]
fn yearless_date_accepts_two_leading_hyphens() {
    assert_eq!(parse_yearless_date("--11-18"), YearlessDate::new_opt(11, 18));
}

#[test]
fn yearless_date_rejects_one_leading_hyphen() {
    assert_eq!(parse_yearless_date("-11-18"), None);
}

#[test]
fn yearless_date_rejects_three_leading_hyphens() {
    assert_eq!(parse_yearless_date("---11-18"), None);
}

#[test]
fn yearless_date_caps_february_at_29() {
    assert_eq!(parse_yearless_date("02-29"), YearlessDate::new_opt(2, 29));
    assert_eq!(parse_yearless_date("02-30"), None);
}

#[test]
fn local_datetime_reports_components() {
    let parsed = parse_local_datetime("2011-11-18T14:54:39.929").unwrap();
    assert_eq!(parsed.date().year(), 2011);
    assert_eq!(parsed.date().month(), 11);
    assert_eq!(parsed.date().day(), 18);
    assert_eq!(parsed.time().hour(), 14);
    assert_eq!(parsed.time().minute(), 54);
    assert_eq!(parsed.time().second(), 39);
    assert_eq!(parsed.time().millisecond(), 929);
}

#[test]
fn local_datetime_rejects_timezone_suffix() {
    assert_eq!(parse_local_datetime("2011-11-18T14:54Z"), None);
}

#[test]
fn constructors_reject_out_of_range_components() {
    assert_eq!(YearMonth::new_opt(2011, 0), None);
    assert_eq!(YearMonth::new_opt(2011, 13), None);
    assert_eq!(YearMonth::new_opt(0, 1), None);
    assert_eq!(Date::new_opt(2007, 2, 29), None);
    assert_eq!(Date::new_opt(2011, 11, 0), None);
    assert_eq!(YearlessDate::new_opt(2, 30), None);
    assert_eq!(YearlessDate::new_opt(4, 31), None);
    assert_eq!(YearlessDate::new_opt(13, 1), None);
    assert_eq!(YearlessDate::new_opt(12, 32), None);
    assert_eq!(YearWeek::new_opt(2011, 53), None);
    assert_eq!(YearWeek::new_opt(1952, 0), None);
    assert_eq!(YearWeek::new_opt(0, 1), None);
    assert_eq!(Time::new_opt(24, 0, 0, 0), None);
    assert_eq!(Time::new_opt(12, 60, 0, 0), None);
    assert_eq!(Time::new_opt(12, 0, 60, 0), None);
    assert_eq!(Time::new_opt(12, 0, 0, 1000), None);
    assert_eq!(TimeZoneOffset::new_opt(24, 0), None);
    assert_eq!(TimeZoneOffset::new_opt(1, 60), None);
    assert_eq!(TimeZoneOffset::new_opt(-7, 0).map(|o| (o.hour(), o.minute())), Some((-7, 0)));
}

#[test]
fn constructors_accept_boundary_components() {
    assert!(YearMonth::new_opt(2011, 12).is_some());
    assert!(Date::new_opt(2012, 2, 29).is_some());
    assert!(YearWeek::new_opt(2004, 53).is_some());
    assert!(Time::new_opt(23, 59, 59, 999).is_some());
    assert!(TimeZoneOffset::new_opt(23, 59).is_some());
    assert!(TimeZoneOffset::new_opt(-23, 59).is_some());
}

#[test]
fn reparsing_a_parsed_value_reproduces_it() {
    let first = parse_date("2012-02-29").unwrap();
    let again = parse_date("2012-02-29").unwrap();
    assert_eq!(first, again);

    let time_first = parse_time("14:54:39.929").unwrap();
    let time_again = parse_time("14:54:39.929").unwrap();
    assert_eq!(time_first, time_again);
}

#[test]
fn max_days_in_month_handles_century_rule() {
    assert_eq!(max_days_in_month_year(2, 1900), Some(28));
    assert_eq!(max_days_in_month_year(2, 2000), Some(29));
}

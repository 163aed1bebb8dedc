//! Calendar arithmetic: leap years, the day count of a month, and the week
//! count of a year, which depends on the weekday of January 1 as the calendar
//! library computes it.

use chrono::Datelike;
use vstd::prelude::*;

verus! {

/// The largest year for which the calendar library can represent January 1.
pub const CAL_MAX_YEAR: i32 = 262142;

/// The smallest year for which the calendar library can represent January 1.
pub const CAL_MIN_YEAR: i32 = -262143;

/// A proleptic-Gregorian leap year: divisible by 400, or divisible by 4 and
/// not by 100.
pub open spec fn spec_is_leap_year(year: int) -> bool {
    let y = if year < 0 {
        -year
    } else {
        year
    };
    y % 400 == 0 || (y % 4 == 0 && y % 100 != 0)
}

/// The number of days of a month (1 through 12) in a year.
pub open spec fn spec_max_days_in_month(month: int, year: int) -> int {
    if month == 2 {
        if spec_is_leap_year(year) {
            29
        } else {
            28
        }
    } else if month == 4 || month == 6 || month == 9 || month == 11 {
        30
    } else {
        31
    }
}

/// The weekday of January 1 of a year, numbered from Monday as 0 through
/// Sunday as 6, as the calendar library computes it.
pub uninterp spec fn jan1_weekday(year: int) -> int;

/// The week count of a year: 53 when January 1 falls on a Thursday, or on a
/// Wednesday in a leap year; 52 otherwise.
pub open spec fn spec_week_count(year: int) -> int {
    if jan1_weekday(year) == 3 || (jan1_weekday(year) == 2 && spec_is_leap_year(year)) {
        53
    } else {
        52
    }
}

/// Relies on chrono's `NaiveDate::from_ymd_opt`, `Datelike::weekday` and
/// `Weekday::num_days_from_monday`: January 1 is representable exactly for
/// the years between `CAL_MIN_YEAR` and `CAL_MAX_YEAR`, and its weekday,
/// numbered from Monday as 0, depends on the year alone.
#[verifier::external_body]
fn weekday_of_january_1(year: i32) -> (r: Option<u32>)
    ensures
        r is Some <==> CAL_MIN_YEAR <= year <= CAL_MAX_YEAR,
        r is Some ==> r->0 < 7 && r->0 == jan1_weekday(year as int),
{
    match chrono::NaiveDate::from_ymd_opt(year, 1, 1) {
        Some(d) => Some(d.weekday().num_days_from_monday()),
        None => None,
    }
}

/// Reports whether a year is a proleptic-Gregorian leap year.
pub(crate) fn is_leap_year(year: i32) -> (r: bool)
    ensures
        r == spec_is_leap_year(year as int),
{
    let y: i64 = if year < 0 {
        -(year as i64)
    } else {
        year as i64
    };
    y % 400 == 0 || (y % 4 == 0 && y % 100 != 0)
}

/// The number of days of the given month in the given year, per the
/// Gregorian rule; `None` for a month outside 1 through 12.
pub fn max_days_in_month_year(month: u32, year: u32) -> (r: Option<u32>)
    ensures
        r is Some <==> crate::spec_valid_month(month as int),
        crate::spec_valid_month(month as int) ==> r == Some(
            spec_max_days_in_month(month as int, year as int) as u32,
        ),
{
    if month == 1 || month == 3 || month == 5 || month == 7 || month == 8 || month == 10 || month
        == 12 {
        Some(31)
    } else if month == 4 || month == 6 || month == 9 || month == 11 {
        Some(30)
    } else if month == 2 {
        if year % 400 == 0 || (year % 4 == 0 && year % 100 != 0) {
            Some(29)
        } else {
            Some(28)
        }
    } else {
        None
    }
}

/// The number of days of a month (1 through 12) in a year that may be
/// negative.
pub(crate) fn max_days_in_month_of_year(month: u32, year: i32) -> (r: u32)
    requires
        crate::spec_valid_month(month as int),
    ensures
        r as int == spec_max_days_in_month(month as int, year as int),
{
    if month == 2 {
        if is_leap_year(year) {
            29
        } else {
            28
        }
    } else if month == 4 || month == 6 || month == 9 || month == 11 {
        30
    } else {
        31
    }
}

/// The week count of a year: 53 when January 1 falls on a Thursday, or on a
/// Wednesday in a leap year; 52 otherwise. `None` for the years whose
/// January 1 the calendar library cannot represent.
pub fn week_number_of_year(year: i32) -> (r: Option<u32>)
    ensures
        r is Some <==> CAL_MIN_YEAR <= year <= CAL_MAX_YEAR,
        r is Some ==> r->0 == spec_week_count(year as int),
{
    match weekday_of_january_1(year) {
        None => None,
        Some(weekday) => {
            if weekday == 3 {
                Some(53)
            } else if weekday == 2 && is_leap_year(year) {
                Some(53)
            } else {
                Some(52)
            }
        },
    }
}

} // verus!

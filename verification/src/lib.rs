//! Parsers for the date and time microsyntaxes of the WHATWG HTML standard:
//! months, dates, yearless dates, weeks, times, time-zone offsets, and the
//! local and global date-time forms, together with the scanning and calendar
//! primitives they are built on.

mod calendar;
mod codepoints;
mod date;
mod global_datetime;
mod local_datetime;
mod month;
mod render;
mod scan;
mod strings;
mod time;
mod timezone_offset;
mod week;
mod yearless_date;

pub use crate::calendar::{max_days_in_month_year, week_number_of_year};
pub use crate::codepoints::{
    is_ascii_tab_newline, is_c0_control, is_c0_control_space, is_leading_surrogate_utf16,
    is_noncharacter, is_surrogate_utf16, is_trailing_surrogate_utf16, InfraScalarValue,
    InfraUtf16Surrogate,
};
pub use crate::date::{parse_date, parse_date_component, Date};
pub use crate::global_datetime::{parse_global_datetime, GlobalDateTime};
pub use crate::local_datetime::{parse_local_datetime, LocalDateTime};
pub use crate::month::{parse_month, parse_month_component, YearMonth};
pub use crate::strings::{
    collect_codepoints, normalize_newlines, skip_ascii_whitespace, skip_codepoints,
    strip_newlines, trim_ascii_whitespace, trim_collapse_ascii_whitespace, InfraStr,
};
pub use crate::time::{parse_time, parse_time_component, Time};
pub use crate::timezone_offset::{
    parse_timezone_offset, parse_timezone_offset_component, TimeZoneOffset, TimeZoneSign,
};
pub use crate::week::{parse_week, YearWeek};
pub use crate::yearless_date::{parse_yearless_date, parse_yearless_date_component, YearlessDate};

use vstd::prelude::*;

verus! {

/// A month number is valid when it lies between 1 and 12, inclusive.
pub open spec fn spec_valid_month(month: int) -> bool {
    1 <= month <= 12
}

/// Reports whether a month number lies between 1 and 12, inclusive.
pub(crate) fn is_valid_month(month: &u32) -> (r: bool)
    ensures
        r == spec_valid_month(*month as int),
{
    1 <= *month && *month <= 12
}

/// Reports whether an hour lies between 0 and 23, inclusive.
pub(crate) fn is_valid_hour(hour: &u32) -> (r: bool)
    ensures
        r == (*hour <= 23),
{
    *hour <= 23
}

/// Reports whether a minute or second lies between 0 and 59, inclusive.
pub(crate) fn is_valid_min_or_sec(val: &u32) -> (r: bool)
    ensures
        r == (*val <= 59),
{
    *val <= 59
}

} // verus!

//! The global date-time microsyntax: a date component, a `T` or space
//! delimiter, a time component, and a time-zone offset component, parsed and
//! normalized into a [`GlobalDateTime`] anchored to the zero offset. The
//! offset is subtracted from the composed date and time, which may roll the
//! date forward or backward a day.

use crate::date::{
    lemma_date_component_end, parse_date_component, spec_next_day, spec_parse_date_component,
    spec_prev_day, Date,
};
use crate::time::{lemma_time_component_end, parse_time_component, spec_parse_time_component, Time};
use crate::timezone_offset::{
    lemma_timezone_offset_component_end, parse_timezone_offset_component,
    spec_parse_timezone_offset_component,
};
use vstd::prelude::*;

verus! {

/// A date and a time of day anchored to the zero time-zone offset.
#[derive(Debug, Clone, Copy, PartialEq, Eq, Structural)]
pub struct GlobalDateTime {
    pub(crate) date: Date,
    pub(crate) time: Time,
}

impl GlobalDateTime {
    /// The date component.
    pub closed spec fn spec_date(self) -> Date {
        self.date
    }

    /// The time component.
    pub closed spec fn spec_time(self) -> Time {
        self.time
    }

    /// A well-formed value: a well-formed date and a well-formed time.
    pub open spec fn wf(self) -> bool {
        self.spec_date().wf() && self.spec_time().wf()
    }

    /// Combines a date and a time of day already anchored to the zero
    /// offset.
    pub fn new(date: Date, time: Time) -> (r: Self)
        ensures
            r.spec_date() == date,
            r.spec_time() == time,
    {
        Self { date, time }
    }

    /// The date component.
    pub fn date(&self) -> (r: Date)
        ensures
            r == self.spec_date(),
    {
        self.date
    }

    /// The time component.
    pub fn time(&self) -> (r: Time)
        ensures
            r == self.spec_time(),
    {
        self.time
    }
}

/// A date, hour and minute with the offset's total minutes subtracted,
/// rolling the date a day backward or forward where the subtraction leaves
/// the day's bounds; `None` only where rolling forward leaves the year
/// unrepresentable.
pub open spec fn spec_apply_offset(
    year: int,
    month: int,
    day: int,
    hour: int,
    minute: int,
    offset_hour: int,
    offset_minute: int,
) -> Option<(int, int, int, int, int)> {
    let offset = offset_hour * 60 + offset_minute;
    let t = hour * 60 + minute - offset;
    if t < 0 {
        let (py, pm, pd) = spec_prev_day(year, month, day);
        Some((py, pm, pd, (t + 1440) / 60, (t + 1440) % 60))
    } else if t >= 1440 {
        if year == i32::MAX && month == 12 && day == 31 {
            None
        } else {
            let (ny, nm, nd) = spec_next_day(year, month, day);
            Some((ny, nm, nd, (t - 1440) / 60, (t - 1440) % 60))
        }
    } else {
        Some((year, month, day, t / 60, t % 60))
    }
}

/// The result of parsing a whole string as a global date-time: the
/// normalized date triple and time quadruple, with nothing left over;
/// `None` on rejection.
pub open spec fn spec_parse_global_datetime(s: Seq<char>) -> Option<
    ((int, int, int), (int, int, int, int)),
> {
    match spec_parse_date_component(s, 0) {
        None => None,
        Some((year, month, day, de)) => {
            if !(de < s.len() && (s[de] == 'T' || s[de] == ' ')) {
                None
            } else {
                match spec_parse_time_component(s, de + 1) {
                    None => None,
                    Some((hour, minute, second, ms, te)) => {
                        match spec_parse_timezone_offset_component(s, te) {
                            None => None,
                            Some((offset_hour, offset_minute, ze)) => {
                                if ze != s.len() {
                                    None
                                } else {
                                    match spec_apply_offset(
                                        year,
                                        month,
                                        day,
                                        hour,
                                        minute,
                                        offset_hour,
                                        offset_minute,
                                    ) {
                                        None => None,
                                        Some((y2, m2, d2, h2, mi2)) => Some(
                                            ((y2, m2, d2), (h2, mi2, second, ms)),
                                        ),
                                    }
                                }
                            },
                        }
                    },
                }
            }
        },
    }
}

/// Parses a whole string as a global date-time: a date component, a `T` or
/// a single space, a time component, and a time-zone offset component, with
/// nothing left over; the offset is subtracted to anchor the result to the
/// zero offset.
pub fn parse_global_datetime(s: &str) -> (r: Option<GlobalDateTime>)
    ensures
        ({
            let res = spec_parse_global_datetime(s@);
            match r {
                Some(dt) => res matches Some(t) && dt.spec_date().spec_year() == t.0.0
                    && dt.spec_date().spec_month() == t.0.1 && dt.spec_date().spec_day() == t.0.2
                    && dt.spec_time().spec_hour() == t.1.0 && dt.spec_time().spec_minute()
                    == t.1.1 && dt.spec_time().spec_second() == t.1.2
                    && dt.spec_time().spec_millisecond() == t.1.3 && dt.wf(),
                None => res is None,
            }
        }),
{
    let n = s.unicode_len();
    let mut position: usize = 0;
    let date = match parse_date_component(s, &mut position) {
        Some(d) => d,
        None => {
            return None;
        },
    };
    proof {
        lemma_date_component_end(s@, 0);
    }
    if position >= n {
        return None;
    }
    let delimiter = s.get_char(position);
    if delimiter != 'T' && delimiter != ' ' {
        return None;
    }
    position += 1;
    let ghost time_start = position as int;
    let time = match parse_time_component(s, &mut position) {
        Some(t) => t,
        None => {
            return None;
        },
    };
    proof {
        lemma_time_component_end(s@, time_start);
    }
    let ghost zone_start = position as int;
    let timezone_offset = match parse_timezone_offset_component(s, &mut position) {
        Some(o) => o,
        None => {
            return None;
        },
    };
    proof {
        lemma_timezone_offset_component_end(s@, zone_start);
    }
    if position < n {
        return None;
    }
    let offset: i32 = timezone_offset.hour() * 60 + timezone_offset.minute();
    let t: i32 = (time.hour() * 60 + time.minute()) as i32 - offset;
    let normalized_date: Date;
    let normalized_minutes: i32;
    if t < 0 {
        normalized_date = date.prev_day();
        normalized_minutes = t + 1440;
    } else if t >= 1440 {
        if date.year() == i32::MAX && date.month() == 12 && date.day() == 31 {
            return None;
        }
        normalized_date = date.next_day();
        normalized_minutes = t - 1440;
    } else {
        normalized_date = date;
        normalized_minutes = t;
    }
    let normalized_time = Time::new(
        (normalized_minutes / 60) as u32,
        (normalized_minutes % 60) as u32,
        time.second(),
        time.millisecond(),
    );
    Some(GlobalDateTime::new(normalized_date, normalized_time))
}

} // verus!

//! The local date-time microsyntax: a date component, a `T` or space
//! delimiter, and a time component, with no time-zone information, parsed
//! into a [`LocalDateTime`].

use crate::date::{lemma_date_component_end, parse_date_component, spec_parse_date_component, Date};
use crate::time::{lemma_time_component_end, parse_time_component, spec_parse_time_component, Time};
use vstd::prelude::*;

verus! {

/// A date and a time of day, with no time zone.
#[derive(Debug, Clone, Copy, PartialEq, Eq, Structural)]
pub struct LocalDateTime {
    pub(crate) date: Date,
    pub(crate) time: Time,
}

impl LocalDateTime {
    /// The date component.
    pub closed spec fn spec_date(self) -> Date {
        self.date
    }

    /// The time component.
    pub closed spec fn spec_time(self) -> Time {
        self.time
    }

    /// A well-formed value: a well-formed date and a well-formed time.
    pub open spec fn wf(self) -> bool {
        self.spec_date().wf() && self.spec_time().wf()
    }

    /// Combines a date and a time of day.
    pub fn new(date: Date, time: Time) -> (r: Self)
        ensures
            r.spec_date() == date,
            r.spec_time() == time,
    {
        Self { date, time }
    }

    /// The date component.
    pub fn date(&self) -> (r: Date)
        ensures
            r == self.spec_date(),
    {
        self.date
    }

    /// The time component.
    pub fn time(&self) -> (r: Time)
        ensures
            r == self.spec_time(),
    {
        self.time
    }
}

/// The result of parsing a whole string as a local date-time: the date
/// triple and the time quadruple, with nothing left over; `None` on
/// rejection.
pub open spec fn spec_parse_local_datetime(s: Seq<char>) -> Option<
    ((int, int, int), (int, int, int, int)),
> {
    match spec_parse_date_component(s, 0) {
        None => None,
        Some((year, month, day, de)) => {
            if !(de < s.len() && (s[de] == 'T' || s[de] == ' ')) {
                None
            } else {
                match spec_parse_time_component(s, de + 1) {
                    None => None,
                    Some((hour, minute, second, ms, te)) => if te == s.len() {
                        Some(((year, month, day), (hour, minute, second, ms)))
                    } else {
                        None
                    },
                }
            }
        },
    }
}

/// Parses a whole string as a local date-time: a date component, a `T` or
/// a single space, and a time component, with nothing left over.
pub fn parse_local_datetime(s: &str) -> (r: Option<LocalDateTime>)
    ensures
        ({
            let res = spec_parse_local_datetime(s@);
            match r {
                Some(dt) => res matches Some(t) && dt.spec_date().spec_year() == t.0.0
                    && dt.spec_date().spec_month() == t.0.1 && dt.spec_date().spec_day() == t.0.2
                    && dt.spec_time().spec_hour() == t.1.0 && dt.spec_time().spec_minute()
                    == t.1.1 && dt.spec_time().spec_second() == t.1.2
                    && dt.spec_time().spec_millisecond() == t.1.3 && dt.wf(),
                None => res is None,
            }
        }),
{
    let n = s.unicode_len();
    let mut position: usize = 0;
    let date = match parse_date_component(s, &mut position) {
        Some(d) => d,
        None => {
            return None;
        },
    };
    proof {
        lemma_date_component_end(s@, 0);
    }
    if position >= n {
        return None;
    }
    let delimiter = s.get_char(position);
    if delimiter != 'T' && delimiter != ' ' {
        return None;
    }
    position += 1;
    let ghost time_start = position as int;
    let time = match parse_time_component(s, &mut position) {
        Some(t) => t,
        None => {
            return None;
        },
    };
    proof {
        lemma_time_component_end(s@, time_start);
    }
    if position < n {
        return None;
    }
    Some(LocalDateTime::new(date, time))
}

} // verus!

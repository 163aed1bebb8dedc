//! The time-zone offset microsyntax: the letter `Z`, or a sign followed by
//! `HH:MM` or `HHMM`, parsed into a [`TimeZoneOffset`]. Where no offset
//! starts at the scan position a zero offset is produced without consuming
//! anything.

use crate::scan::{
    digit_of, digit_run_end, digit_value, digits_val, lemma_digit_run_end_bounds,
    lemma_digits_val_bound, scan_digits, collect_two_digits,
};
use vstd::prelude::*;

verus! {

/// A time-zone offset: a signed number of hours between -23 and 23 and a
/// signed number of minutes between -59 and 59.
#[derive(Debug, Clone, Copy, PartialEq, Eq, Structural)]
pub struct TimeZoneOffset {
    pub(crate) hour: i32,
    pub(crate) minute: i32,
}

impl TimeZoneOffset {
    /// The hour component as a mathematical integer.
    pub closed spec fn spec_hour(self) -> int {
        self.hour as int
    }

    /// The minute component as a mathematical integer.
    pub closed spec fn spec_minute(self) -> int {
        self.minute as int
    }

    /// A well-formed value: hour between -23 and 23, minute between -59
    /// and 59.
    pub open spec fn wf(self) -> bool {
        -23 <= self.spec_hour() <= 23 && -59 <= self.spec_minute() <= 59
    }

    pub(crate) fn new(hour: i32, minute: i32) -> (r: Self)
        ensures
            r.spec_hour() == hour as int,
            r.spec_minute() == minute as int,
    {
        Self { hour, minute }
    }

    /// Creates a `TimeZoneOffset` when the hours lie between -23 and 23 and
    /// the minutes between 0 and 59; `None` otherwise.
    pub fn new_opt(hours: i32, minutes: i32) -> (r: Option<Self>)
        ensures
            if -23 <= hours <= 23 && 0 <= minutes <= 59 {
                r matches Some(o) && o.spec_hour() == hours as int && o.spec_minute()
                    == minutes as int
            } else {
                r is None
            },
    {
        if hours < -23 || hours > 23 {
            return None;
        }
        if minutes < 0 || minutes > 59 {
            return None;
        }
        Some(Self::new(hours, minutes))
    }

    /// The hour component, a number from -23 to 23.
    pub fn hour(&self) -> (r: i32)
        ensures
            r as int == self.spec_hour(),
    {
        self.hour
    }

    /// The minute component, a number from -59 to 59.
    pub fn minute(&self) -> (r: i32)
        ensures
            r as int == self.spec_minute(),
    {
        self.minute
    }
}

/// The sign of a time-zone offset.
#[derive(Debug, Clone, Copy, PartialEq, Eq, Structural)]
pub enum TimeZoneSign {
    Positive,
    Negative,
}

impl TimeZoneSign {
    /// The sign a character stands for: `Ok` for `+` and `-`, `Err`
    /// otherwise.
    pub fn try_from(value: char) -> (r: Result<TimeZoneSign, ()>)
        ensures
            r == (if value == '+' {
                Ok::<TimeZoneSign, ()>(TimeZoneSign::Positive)
            } else if value == '-' {
                Ok::<TimeZoneSign, ()>(TimeZoneSign::Negative)
            } else {
                Err::<TimeZoneSign, ()>(())
            }),
    {
        match value {
            '+' => Ok(TimeZoneSign::Positive),
            '-' => Ok(TimeZoneSign::Negative),
            _ => Err(()),
        }
    }
}

/// The result of parsing a time-zone offset component at a position: the
/// signed hour and minute and the position after the component. `Z` is the
/// zero offset; absence of `Z` or a sign is the zero offset with nothing
/// consumed; `None` on rejection.
pub open spec fn spec_parse_timezone_offset_component(s: Seq<char>, pos: int) -> Option<
    (int, int, int),
> {
    if pos < s.len() && s[pos] == 'Z' {
        Some((0, 0, pos + 1))
    } else if pos < s.len() && (s[pos] == '+' || s[pos] == '-') {
        let negative = s[pos] == '-';
        let e = digit_run_end(s, pos + 1);
        let k = e - (pos + 1);
        if k == 2 {
            let hours = digits_val(s.subrange(pos + 1, e));
            if !(e < s.len() && s[e] == ':') {
                None
            } else {
                let me = digit_run_end(s, e + 1);
                let minutes = digits_val(s.subrange(e + 1, me));
                if me - (e + 1) == 2 && hours <= 23 && minutes <= 59 {
                    if negative {
                        Some((-hours, -minutes, me))
                    } else {
                        Some((hours, minutes, me))
                    }
                } else {
                    None
                }
            }
        } else if k == 4 {
            let hours = digits_val(s.subrange(pos + 1, pos + 3));
            let minutes = digits_val(s.subrange(pos + 3, e));
            if hours <= 23 && minutes <= 59 {
                if negative {
                    Some((-hours, -minutes, e))
                } else {
                    Some((hours, minutes, e))
                }
            } else {
                None
            }
        } else {
            None
        }
    } else {
        Some((0, 0, pos))
    }
}

/// The result of parsing a whole string as a time-zone offset, with nothing
/// left over; `None` on rejection.
pub open spec fn spec_parse_timezone_offset(s: Seq<char>) -> Option<(int, int)> {
    match spec_parse_timezone_offset_component(s, 0) {
        Some((hours, minutes, end)) => if end == s.len() {
            Some((hours, minutes))
        } else {
            None
        },
        None => None,
    }
}

/// A time-zone offset component that parses ends at or after its starting
/// position and within the string.
pub proof fn lemma_timezone_offset_component_end(s: Seq<char>, pos: int)
    requires
        0 <= pos,
    ensures
        spec_parse_timezone_offset_component(s, pos) matches Some(t) ==> pos <= t.2 && (pos
            <= s.len() ==> t.2 <= s.len()),
{
    if pos <= s.len() && spec_parse_timezone_offset_component(s, pos) is Some {
        if pos < s.len() && (s[pos] == '+' || s[pos] == '-') {
            lemma_digit_run_end_bounds(s, pos + 1);
            let e = digit_run_end(s, pos + 1);
            if e - (pos + 1) == 2 && e < s.len() && s[e] == ':' {
                lemma_digit_run_end_bounds(s, e + 1);
            }
        }
    }
}

/// Parses a time-zone offset component at the scan position: `Z` for the
/// zero offset; a sign followed by `HH:MM` or `HHMM` with the hour at most
/// 23 and the minute at most 59, both negated after a `-`; or, where
/// neither starts here, the zero offset with the cursor left in place.
pub fn parse_timezone_offset_component(s: &str, position: &mut usize) -> (r: Option<
    TimeZoneOffset,
>)
    ensures
        ({
            let res = spec_parse_timezone_offset_component(s@, *old(position) as int);
            match r {
                Some(o) => res matches Some(t) && o.spec_hour() == t.0 && o.spec_minute() == t.1
                    && *final(position) == t.2 && o.wf(),
                None => res is None,
            }
        }),
{
    let n = s.unicode_len();
    if *position >= n {
        return Some(TimeZoneOffset::new(0, 0));
    }
    let c = s.get_char(*position);
    if c == 'Z' {
        *position += 1;
        return Some(TimeZoneOffset::new(0, 0));
    }
    if c != '+' && c != '-' {
        return Some(TimeZoneOffset::new(0, 0));
    }
    let sign = match TimeZoneSign::try_from(c) {
        Ok(sg) => sg,
        Err(_) => {
            return None;
        },
    };
    *position += 1;
    let dstart = *position;
    proof {
        lemma_digit_run_end_bounds(s@, dstart as int);
    }
    let (k, value) = scan_digits(s, position);
    let hours: u32;
    let minutes: u32;
    if k == 2 {
        proof {
            lemma_digits_val_bound(s@.subrange(dstart as int, dstart as int + 2));
        }
        hours = match value {
            Some(v) => v,
            None => {
                return None;
            },
        };
        if *position >= n || s.get_char(*position) != ':' {
            return None;
        }
        *position += 1;
        minutes = match collect_two_digits(s, position) {
            Some(m) => m,
            None => {
                return None;
            },
        };
    } else if k == 4 {
        let h = digit_value(s.get_char(dstart)) * 10 + digit_value(s.get_char(dstart + 1));
        let m = digit_value(s.get_char(dstart + 2)) * 10 + digit_value(s.get_char(dstart + 3));
        proof {
            let base = dstart as int;
            assert(s@.subrange(base, base + 1).drop_last() =~= Seq::<char>::empty());
            assert(s@.subrange(base, base + 1).last() == s@[base]);
            assert(digits_val(Seq::<char>::empty()) == 0);
            assert(digits_val(s@.subrange(base, base + 1)) == digit_of(s@[base]));
            assert(s@.subrange(base, base + 2).drop_last() =~= s@.subrange(base, base + 1));
            assert(s@.subrange(base, base + 2).last() == s@[base + 1]);
            assert(h as int == digits_val(s@.subrange(base, base + 2)));
            assert(s@.subrange(base + 2, base + 3).drop_last() =~= Seq::<char>::empty());
            assert(s@.subrange(base + 2, base + 3).last() == s@[base + 2]);
            assert(digits_val(s@.subrange(base + 2, base + 3)) == digit_of(s@[base + 2]));
            assert(s@.subrange(base + 2, base + 4).drop_last() =~= s@.subrange(base + 2, base + 3));
            assert(s@.subrange(base + 2, base + 4).last() == s@[base + 3]);
            assert(m as int == digits_val(s@.subrange(base + 2, base + 4)));
        }
        hours = h;
        minutes = m;
    } else {
        return None;
    }
    if hours > 23 {
        return None;
    }
    if minutes > 59 {
        return None;
    }
    let mut hour_signed: i32 = hours as i32;
    let mut minute_signed: i32 = minutes as i32;
    if sign == TimeZoneSign::Negative {
        hour_signed = -hour_signed;
        minute_signed = -minute_signed;
    }
    Some(TimeZoneOffset::new(hour_signed, minute_signed))
}

/// Parses a whole string as a time-zone offset; anything left over after
/// the component is rejection.
pub fn parse_timezone_offset(s: &str) -> (r: Option<TimeZoneOffset>)
    ensures
        ({
            let res = spec_parse_timezone_offset(s@);
            match r {
                Some(o) => res matches Some(t) && o.spec_hour() == t.0 && o.spec_minute() == t.1
                    && o.wf(),
                None => res is None,
            }
        }),
{
    let mut position: usize = 0;
    let parsed = match parse_timezone_offset_component(s, &mut position) {
        Some(o) => o,
        None => {
            return None;
        },
    };
    proof {
        lemma_timezone_offset_component_end(s@, 0);
    }
    if position < s.unicode_len() {
        return None;
    }
    Some(parsed)
}

} // verus!

//! The date microsyntax: a month component, a hyphen, and a two-digit day
//! bounded by the month's day count for the year, parsed into a [`Date`].

use crate::calendar::{max_days_in_month_of_year, spec_max_days_in_month};
use crate::month::{
    lemma_month_component_end, parse_month_component, spec_parse_month_component,
};
use crate::scan::{digit_run_end, digits_val, lemma_digit_run_end_bounds, collect_two_digits};
use vstd::prelude::*;

verus! {

/// A proleptic-Gregorian date: a nonzero year, a month between 1 and 12, and
/// a day bounded by that month's day count in that year.
#[derive(Debug, Clone, Copy, PartialEq, Eq, Structural)]
pub struct Date {
    pub(crate) year: i32,
    pub(crate) month: u32,
    pub(crate) day: u32,
}

impl Date {
    /// The year component as a mathematical integer.
    pub closed spec fn spec_year(self) -> int {
        self.year as int
    }

    /// The month component as a mathematical integer.
    pub closed spec fn spec_month(self) -> int {
        self.month as int
    }

    /// The day component as a mathematical integer.
    pub closed spec fn spec_day(self) -> int {
        self.day as int
    }

    /// A well-formed value: nonzero year, month between 1 and 12, day
    /// between 1 and the month's day count in the year.
    pub open spec fn wf(self) -> bool {
        self.spec_year() != 0 && crate::spec_valid_month(self.spec_month()) && 1 <= self.spec_day()
            <= spec_max_days_in_month(self.spec_month(), self.spec_year())
    }

    /// Creates a `Date` when the year is nonzero, the month lies between
    /// 1 and 12, and the day exists in that month of that year; `None`
    /// otherwise.
    pub fn new_opt(year: i32, month: u32, day: u32) -> (r: Option<Self>)
        ensures
            if year != 0 && crate::spec_valid_month(month as int) && 1 <= day as int
                <= spec_max_days_in_month(month as int, year as int) {
                r matches Some(d) && d.spec_year() == year as int && d.spec_month() == month as int
                    && d.spec_day() == day as int
            } else {
                r is None
            },
    {
        if year == 0 {
            return None;
        }
        if !crate::is_valid_month(&month) {
            return None;
        }
        let max_days = max_days_in_month_of_year(month, year);
        if day < 1 || day > max_days {
            return None;
        }
        Some(Self { year, month, day })
    }

    /// The year component, a nonzero number.
    pub fn year(&self) -> (r: i32)
        ensures
            r as int == self.spec_year(),
    {
        self.year
    }

    /// The month component, a number from 1 to 12.
    pub fn month(&self) -> (r: u32)
        ensures
            r as int == self.spec_month(),
    {
        self.month
    }

    /// The day component, a number from 1 to the month's day count.
    pub fn day(&self) -> (r: u32)
        ensures
            r as int == self.spec_day(),
    {
        self.day
    }
}

/// The calendar day after a date, the year after -1 being 1: there is no
/// year zero.
pub open spec fn spec_next_day(y: int, m: int, d: int) -> (int, int, int) {
    if d < spec_max_days_in_month(m, y) {
        (y, m, d + 1)
    } else if m < 12 {
        (y, m + 1, 1)
    } else if y == -1 {
        (1, 1, 1)
    } else {
        (y + 1, 1, 1)
    }
}

/// The calendar day before a date, the year before 1 being -1: there is no
/// year zero.
pub open spec fn spec_prev_day(y: int, m: int, d: int) -> (int, int, int) {
    if d > 1 {
        (y, m, d - 1)
    } else if m > 1 {
        (y, m - 1, spec_max_days_in_month(m - 1, y))
    } else if y == 1 {
        (-1, 12, 31)
    } else {
        (y - 1, 12, 31)
    }
}

impl Date {
    /// The day after this date.
    pub(crate) fn next_day(&self) -> (r: Date)
        requires
            self.wf(),
            !(self.spec_year() == i32::MAX && self.spec_month() == 12 && self.spec_day() == 31),
        ensures
            (r.spec_year(), r.spec_month(), r.spec_day()) == spec_next_day(
                self.spec_year(),
                self.spec_month(),
                self.spec_day(),
            ),
            r.wf(),
    {
        let max_days = max_days_in_month_of_year(self.month, self.year);
        if self.day < max_days {
            Date { year: self.year, month: self.month, day: self.day + 1 }
        } else if self.month < 12 {
            Date { year: self.year, month: self.month + 1, day: 1 }
        } else if self.year == -1 {
            Date { year: 1, month: 1, day: 1 }
        } else {
            Date { year: self.year + 1, month: 1, day: 1 }
        }
    }

    /// The day before this date.
    pub(crate) fn prev_day(&self) -> (r: Date)
        requires
            self.wf(),
            self.spec_year() != i32::MIN,
        ensures
            (r.spec_year(), r.spec_month(), r.spec_day()) == spec_prev_day(
                self.spec_year(),
                self.spec_month(),
                self.spec_day(),
            ),
            r.wf(),
    {
        if self.day > 1 {
            Date { year: self.year, month: self.month, day: self.day - 1 }
        } else if self.month > 1 {
            let max_days = max_days_in_month_of_year(self.month - 1, self.year);
            Date { year: self.year, month: self.month - 1, day: max_days }
        } else if self.year == 1 {
            Date { year: -1, month: 12, day: 31 }
        } else {
            Date { year: self.year - 1, month: 12, day: 31 }
        }
    }
}

/// The day count against which a day is first screened, month-table driven
/// with February capped at 29: the largest value the month can hold in any
/// year.
pub open spec fn spec_month_day_cap(month: int) -> int {
    if month == 2 {
        29
    } else if month == 4 || month == 6 || month == 9 || month == 11 {
        30
    } else {
        31
    }
}

/// The result of parsing a date component at a position: the year, month and
/// day, and the position after the component; `None` on rejection.
pub open spec fn spec_parse_date_component(s: Seq<char>, pos: int) -> Option<(int, int, int, int)> {
    match spec_parse_month_component(s, pos) {
        None => None,
        Some((year, month, ye)) => {
            if !(ye < s.len() && s[ye] == '-') {
                None
            } else {
                let de = digit_run_end(s, ye + 1);
                let day = digits_val(s.subrange(ye + 1, de));
                if de - (ye + 1) == 2 && 1 <= day <= spec_max_days_in_month(month, year) {
                    Some((year, month, day, de))
                } else {
                    None
                }
            }
        },
    }
}

/// The result of parsing a whole string as a date, with nothing left over;
/// `None` on rejection.
pub open spec fn spec_parse_date(s: Seq<char>) -> Option<(int, int, int)> {
    match spec_parse_date_component(s, 0) {
        Some((year, month, day, end)) => if end == s.len() {
            Some((year, month, day))
        } else {
            None
        },
        None => None,
    }
}

/// A date component that parses ends after its starting position and within
/// the string.
pub proof fn lemma_date_component_end(s: Seq<char>, pos: int)
    requires
        0 <= pos,
    ensures
        spec_parse_date_component(s, pos) matches Some(t) ==> pos < t.3 <= s.len(),
{
    lemma_month_component_end(s, pos);
    if spec_parse_date_component(s, pos) is Some {
        let ye = (spec_parse_month_component(s, pos)->0).2;
        lemma_digit_run_end_bounds(s, ye + 1);
    }
}

/// Consumes a two-digit run and returns its value when it lies between 1 and
/// the month's largest possible day count (leap years not yet considered).
pub(crate) fn collect_day_and_validate(s: &str, position: &mut usize, month: u32) -> (r: Option<
    u32,
>)
    requires
        *old(position) <= s@.len(),
        crate::spec_valid_month(month as int),
    ensures
        ({
            let e = digit_run_end(s@, *old(position) as int);
            let day = digits_val(s@.subrange(*old(position) as int, e));
            if e - *old(position) == 2 && 1 <= day <= spec_month_day_cap(month as int) {
                r == Some(day as u32) && *final(position) == e
            } else {
                r is None
            }
        }),
{
    let day = match collect_two_digits(s, position) {
        Some(d) => d,
        None => {
            return None;
        },
    };
    let cap: u32 = if month == 2 {
        29
    } else if month == 4 || month == 6 || month == 9 || month == 11 {
        30
    } else {
        31
    };
    if day < 1 || day > cap {
        return None;
    }
    Some(day)
}

/// Parses a date component at the scan position: a month component, a
/// hyphen, and a two-digit day that exists in the parsed month and year. On
/// success the cursor stands after the day digits.
pub fn parse_date_component(s: &str, position: &mut usize) -> (r: Option<Date>)
    ensures
        ({
            let res = spec_parse_date_component(s@, *old(position) as int);
            match r {
                Some(d) => res matches Some(t) && d.spec_year() == t.0 && d.spec_month() == t.1
                    && d.spec_day() == t.2 && *final(position) == t.3 && d.wf(),
                None => res is None,
            }
        }),
{
    let n = s.unicode_len();
    let year_month = match parse_month_component(s, position) {
        Some(ym) => ym,
        None => {
            return None;
        },
    };
    proof {
        lemma_month_component_end(s@, *old(position) as int);
    }
    if *position >= n || s.get_char(*position) != '-' {
        return None;
    }
    *position += 1;
    let day = match collect_day_and_validate(s, position, year_month.month()) {
        Some(d) => d,
        None => {
            return None;
        },
    };
    Date::new_opt(year_month.year(), year_month.month(), day)
}

/// Parses a whole string as a date; anything left over after the date
/// component is rejection.
pub fn parse_date(s: &str) -> (r: Option<Date>)
    ensures
        ({
            let res = spec_parse_date(s@);
            match r {
                Some(d) => res matches Some(t) && d.spec_year() == t.0 && d.spec_month() == t.1
                    && d.spec_day() == t.2 && d.wf(),
                None => res is None,
            }
        }),
{
    let mut position: usize = 0;
    let parsed = match parse_date_component(s, &mut position) {
        Some(d) => d,
        None => {
            return None;
        },
    };
    proof {
        lemma_date_component_end(s@, 0);
    }
    if position < s.unicode_len() {
        return None;
    }
    Some(parsed)
}

} // verus!

//! The week microsyntax: a year of at least one digit, a hyphen, the letter
//! `W`, and a two-digit week number bounded by the year's week count, parsed
//! into a [`YearWeek`].

use crate::calendar::{spec_week_count, week_number_of_year, CAL_MAX_YEAR};
use crate::scan::{
    digit_run_end, digits_val, lemma_digit_run_end_bounds, scan_digits, collect_two_digits,
};
use vstd::prelude::*;

verus! {

/// A week date: a positive year and a week number between 1 and the year's
/// week count (52 or 53).
#[derive(Debug, Clone, Copy, PartialEq, Eq, Structural)]
pub struct YearWeek {
    pub(crate) year: i32,
    pub(crate) week: u32,
}

impl YearWeek {
    /// The year component as a mathematical integer.
    pub closed spec fn spec_year(self) -> int {
        self.year as int
    }

    /// The week component as a mathematical integer.
    pub closed spec fn spec_week(self) -> int {
        self.week as int
    }

    /// A well-formed value: positive year, week between 1 and the year's
    /// week count.
    pub open spec fn wf(self) -> bool {
        self.spec_year() > 0 && 1 <= self.spec_week() <= spec_week_count(self.spec_year())
    }

    pub(crate) fn new(year: i32, week: u32) -> (r: Self)
        ensures
            r.spec_year() == year as int,
            r.spec_week() == week as int,
    {
        Self { year, week }
    }

    /// Creates a `YearWeek` when the year is positive, January 1 of it is
    /// representable, and the week number lies between 1 and the year's week
    /// count; `None` otherwise.
    pub fn new_opt(year: i32, week: u32) -> (r: Option<Self>)
        ensures
            if 0 < year <= CAL_MAX_YEAR && 1 <= week as int <= spec_week_count(year as int) {
                r matches Some(yw) && yw.spec_year() == year as int && yw.spec_week() == week as int
            } else {
                r is None
            },
    {
        if year <= 0 {
            return None;
        }
        let max_weeks = match week_number_of_year(year) {
            Some(m) => m,
            None => {
                return None;
            },
        };
        if week < 1 || week > max_weeks {
            return None;
        }
        Some(Self::new(year, week))
    }

    /// The year component, a positive number.
    pub fn year(&self) -> (r: i32)
        ensures
            r as int == self.spec_year(),
    {
        self.year
    }

    /// The week component, a number from 1 to the year's week count.
    pub fn week(&self) -> (r: u32)
        ensures
            r as int == self.spec_week(),
    {
        self.week
    }
}

/// The result of parsing a whole string as a week: the year and the week
/// number, with nothing left over; `None` on rejection.
pub open spec fn spec_parse_week(s: Seq<char>) -> Option<(int, int)> {
    let ye = digit_run_end(s, 0);
    let year = digits_val(s.subrange(0, ye));
    if ye == 0 || !(1 <= year <= CAL_MAX_YEAR as int) || !(ye + 1 < s.len() && s[ye] == '-' && s[ye
        + 1] == 'W') {
        None
    } else {
        let we = digit_run_end(s, ye + 2);
        let week = digits_val(s.subrange(ye + 2, we));
        if we - (ye + 2) == 2 && 1 <= week <= spec_week_count(year) && we == s.len() {
            Some((year, week))
        } else {
            None
        }
    }
}

/// Parses a whole string as a week: at least one year digit with a positive
/// representable value, a hyphen, the letter `W`, and a two-digit week
/// number between 1 and the year's week count; anything left over is
/// rejection.
pub fn parse_week(input: &str) -> (r: Option<YearWeek>)
    ensures
        ({
            let res = spec_parse_week(input@);
            match r {
                Some(yw) => res matches Some(t) && yw.spec_year() == t.0 && yw.spec_week() == t.1
                    && yw.wf(),
                None => res is None,
            }
        }),
{
    let n = input.unicode_len();
    let mut position: usize = 0;
    let (year_len, year_val) = scan_digits(input, &mut position);
    if year_len == 0 {
        return None;
    }
    let year_u: u32 = match year_val {
        Some(v) => v,
        None => {
            return None;
        },
    };
    if year_u == 0 || year_u > 0x7fff_ffffu32 {
        return None;
    }
    let year: i32 = year_u as i32;
    if position >= n || input.get_char(position) != '-' {
        return None;
    }
    position += 1;
    if position >= n || input.get_char(position) != 'W' {
        return None;
    }
    position += 1;
    proof {
        lemma_digit_run_end_bounds(input@, position as int);
    }
    let week = match collect_two_digits(input, &mut position) {
        Some(w) => w,
        None => {
            return None;
        },
    };
    let max_weeks = match week_number_of_year(year) {
        Some(m) => m,
        None => {
            return None;
        },
    };
    if week < 1 || week > max_weeks {
        return None;
    }
    if position < n {
        return None;
    }
    Some(YearWeek::new(year, week))
}

} // verus!

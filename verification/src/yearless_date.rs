//! The yearless date microsyntax: an optional pair of hyphens, a two-digit
//! month, a hyphen, and a two-digit day bounded by a fixed month table,
//! parsed into a [`YearlessDate`].

use crate::date::{collect_day_and_validate, spec_month_day_cap};
use crate::month::collect_month_and_validate;
use crate::scan::{char_run_end, digit_run_end, digits_val, lemma_char_run_end_bounds,
    lemma_digit_run_end_bounds, scan_char_run};
use vstd::prelude::*;

verus! {

/// A Gregorian month and a day within the month, without a year. The month
/// lies between 1 and 12 and the day between 1 and the month's largest
/// possible day count (February capped at 29).
#[derive(Debug, Clone, Copy, PartialEq, Eq, Structural)]
pub struct YearlessDate {
    pub(crate) month: u32,
    pub(crate) day: u32,
}

impl YearlessDate {
    /// The month component as a mathematical integer.
    pub closed spec fn spec_month(self) -> int {
        self.month as int
    }

    /// The day component as a mathematical integer.
    pub closed spec fn spec_day(self) -> int {
        self.day as int
    }

    /// A well-formed value: month between 1 and 12, day between 1 and the
    /// month's largest possible day count.
    pub open spec fn wf(self) -> bool {
        crate::spec_valid_month(self.spec_month()) && 1 <= self.spec_day() <= spec_month_day_cap(
            self.spec_month(),
        )
    }

    pub(crate) fn new(month: u32, day: u32) -> (r: Self)
        ensures
            r.spec_month() == month as int,
            r.spec_day() == day as int,
    {
        Self { month, day }
    }

    /// Creates a `YearlessDate` when the month lies between 1 and 12 and the
    /// day between 1 and the month's largest possible day count: 29 for
    /// February, 30 for April, June, September and November, 31 otherwise.
    pub fn new_opt(month: u32, day: u32) -> (r: Option<Self>)
        ensures
            if crate::spec_valid_month(month as int) && 1 <= day as int <= spec_month_day_cap(
                month as int,
            ) {
                r matches Some(yd) && yd.spec_month() == month as int && yd.spec_day() == day as int
            } else {
                r is None
            },
    {
        if !crate::is_valid_month(&month) {
            return None;
        }
        let cap: u32 = if month == 2 {
            29
        } else if month == 4 || month == 6 || month == 9 || month == 11 {
            30
        } else {
            31
        };
        if day < 1 || day > cap {
            return None;
        }
        Some(Self::new(month, day))
    }

    /// The month component, a number from 1 to 12.
    pub fn month(&self) -> (r: u32)
        ensures
            r as int == self.spec_month(),
    {
        self.month
    }

    /// The day component, a number from 1 to the month's largest possible
    /// day count.
    pub fn day(&self) -> (r: u32)
        ensures
            r as int == self.spec_day(),
    {
        self.day
    }
}

/// The result of parsing a yearless date component at a position: the month
/// and the day, and the position after the component; `None` on rejection.
pub open spec fn spec_parse_yearless_date_component(s: Seq<char>, pos: int) -> Option<
    (int, int, int),
> {
    let he = char_run_end(s, pos, '-');
    let me = digit_run_end(s, he);
    let month = digits_val(s.subrange(he, me));
    if !(he - pos == 0 || he - pos == 2) || me - he != 2 || !(1 <= month <= 12) || !(me < s.len()
        && s[me] == '-') {
        None
    } else {
        let de = digit_run_end(s, me + 1);
        let day = digits_val(s.subrange(me + 1, de));
        if de - (me + 1) == 2 && 1 <= day <= spec_month_day_cap(month) {
            Some((month, day, de))
        } else {
            None
        }
    }
}

/// The result of parsing a whole string as a yearless date, with nothing
/// left over; `None` on rejection.
pub open spec fn spec_parse_yearless_date(s: Seq<char>) -> Option<(int, int)> {
    match spec_parse_yearless_date_component(s, 0) {
        Some((month, day, end)) => if end == s.len() {
            Some((month, day))
        } else {
            None
        },
        None => None,
    }
}

/// A yearless date component that parses ends after its starting position
/// and within the string.
pub proof fn lemma_yearless_date_component_end(s: Seq<char>, pos: int)
    requires
        0 <= pos,
    ensures
        spec_parse_yearless_date_component(s, pos) matches Some(t) ==> pos < t.2 <= s.len(),
{
    if spec_parse_yearless_date_component(s, pos) is Some {
        assert(pos <= s.len()) by {
            if pos > s.len() {
                assert(char_run_end(s, pos, '-') == pos);
                assert(digit_run_end(s, pos) == pos);
            }
        }
        lemma_char_run_end_bounds(s, pos, '-');
        let he = char_run_end(s, pos, '-');
        lemma_digit_run_end_bounds(s, he);
        let me = digit_run_end(s, he);
        lemma_digit_run_end_bounds(s, me + 1);
    }
}

/// Parses a yearless date component at the scan position: zero or exactly
/// two leading hyphens, a month between 1 and 12, a hyphen, and a two-digit
/// day within the month table's cap. On success the cursor stands after the
/// day digits.
pub fn parse_yearless_date_component(s: &str, position: &mut usize) -> (r: Option<YearlessDate>)
    ensures
        ({
            let res = spec_parse_yearless_date_component(s@, *old(position) as int);
            match r {
                Some(yd) => res matches Some(t) && yd.spec_month() == t.0 && yd.spec_day() == t.1
                    && *final(position) == t.2 && yd.wf(),
                None => res is None,
            }
        }),
{
    let n = s.unicode_len();
    if *position > n {
        return None;
    }
    let hyphens = scan_char_run(s, position, '-');
    if hyphens != 0 && hyphens != 2 {
        return None;
    }
    let month = match collect_month_and_validate(s, position) {
        Some(m) => m,
        None => {
            return None;
        },
    };
    proof {
        lemma_digit_run_end_bounds(s@, char_run_end(s@, *old(position) as int, '-'));
    }
    if *position >= n || s.get_char(*position) != '-' {
        return None;
    }
    *position += 1;
    let day = match collect_day_and_validate(s, position, month) {
        Some(d) => d,
        None => {
            return None;
        },
    };
    Some(YearlessDate::new(month, day))
}

/// Parses a whole string as a yearless date; anything left over after the
/// component is rejection.
pub fn parse_yearless_date(s: &str) -> (r: Option<YearlessDate>)
    ensures
        ({
            let res = spec_parse_yearless_date(s@);
            match r {
                Some(yd) => res matches Some(t) && yd.spec_month() == t.0 && yd.spec_day() == t.1
                    && yd.wf(),
                None => res is None,
            }
        }),
{
    let mut position: usize = 0;
    let parsed = match parse_yearless_date_component(s, &mut position) {
        Some(yd) => yd,
        None => {
            return None;
        },
    };
    proof {
        lemma_yearless_date_component_end(s@, 0);
    }
    if position < s.unicode_len() {
        return None;
    }
    Some(parsed)
}

} // verus!

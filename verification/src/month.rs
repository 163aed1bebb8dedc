//! The month microsyntax: a year of at least four digits, a hyphen, and a
//! two-digit month, parsed into a [`YearMonth`].

use crate::scan::{
    digit_run_end, digits_val, lemma_digit_run_end_bounds, scan_digits, collect_two_digits,
};
use vstd::prelude::*;

verus! {

/// A proleptic-Gregorian year and month, with no day, time or time-zone
/// information. The year is nonzero and the month lies between 1 and 12.
#[derive(Debug, Clone, Copy, PartialEq, Eq, Structural)]
pub struct YearMonth {
    pub(crate) year: i32,
    pub(crate) month: u32,
}

impl YearMonth {
    /// The year component as a mathematical integer.
    pub closed spec fn spec_year(self) -> int {
        self.year as int
    }

    /// The month component as a mathematical integer.
    pub closed spec fn spec_month(self) -> int {
        self.month as int
    }

    /// A well-formed value: nonzero year, month between 1 and 12.
    pub open spec fn wf(self) -> bool {
        self.spec_year() != 0 && crate::spec_valid_month(self.spec_month())
    }

    pub(crate) fn new(year: i32, month: u32) -> (r: Self)
        ensures
            r.spec_year() == year as int,
            r.spec_month() == month as int,
    {
        Self { year, month }
    }

    /// Creates a `YearMonth` when the year is nonzero and the month lies
    /// between 1 and 12; `None` otherwise.
    pub fn new_opt(year: i32, month: u32) -> (r: Option<Self>)
        ensures
            if year != 0 && crate::spec_valid_month(month as int) {
                r matches Some(ym) && ym.spec_year() == year as int && ym.spec_month()
                    == month as int
            } else {
                r is None
            },
    {
        if year == 0 {
            return None;
        }
        if !crate::is_valid_month(&month) {
            return None;
        }
        Some(Self::new(year, month))
    }

    /// The year component, a nonzero number.
    pub fn year(&self) -> (r: i32)
        ensures
            r as int == self.spec_year(),
    {
        self.year
    }

    /// The month component, a number from 1 to 12.
    pub fn month(&self) -> (r: u32)
        ensures
            r as int == self.spec_month(),
    {
        self.month
    }
}

/// The result of parsing a month component at a position: the year, the
/// month, and the position after the component; `None` on rejection.
pub open spec fn spec_parse_month_component(s: Seq<char>, pos: int) -> Option<(int, int, int)> {
    let ye = digit_run_end(s, pos);
    let year = digits_val(s.subrange(pos, ye));
    if ye - pos < 4 || !(1 <= year <= i32::MAX) || !(ye < s.len() && s[ye] == '-') {
        None
    } else {
        let me = digit_run_end(s, ye + 1);
        let month = digits_val(s.subrange(ye + 1, me));
        if me - (ye + 1) == 2 && 1 <= month <= 12 {
            Some((year, month, me))
        } else {
            None
        }
    }
}

/// The result of parsing a whole string as a month: the year and the month,
/// with nothing left over; `None` on rejection.
pub open spec fn spec_parse_month(s: Seq<char>) -> Option<(int, int)> {
    match spec_parse_month_component(s, 0) {
        Some((year, month, end)) => if end == s.len() {
            Some((year, month))
        } else {
            None
        },
        None => None,
    }
}

/// A month component that parses ends after its starting position and within
/// the string.
pub proof fn lemma_month_component_end(s: Seq<char>, pos: int)
    requires
        0 <= pos,
    ensures
        spec_parse_month_component(s, pos) matches Some(t) ==> pos < t.2 <= s.len(),
{
    if spec_parse_month_component(s, pos) is Some {
        assert(pos <= s.len()) by {
            if pos > s.len() {
                assert(digit_run_end(s, pos) == pos);
            }
        }
        let ye = digit_run_end(s, pos);
        lemma_digit_run_end_bounds(s, pos);
        lemma_digit_run_end_bounds(s, ye + 1);
    }
}

/// Consumes a two-digit run and returns its value when it lies between
/// 1 and 12.
pub(crate) fn collect_month_and_validate(s: &str, position: &mut usize) -> (r: Option<u32>)
    requires
        *old(position) <= s@.len(),
    ensures
        ({
            let e = digit_run_end(s@, *old(position) as int);
            let month = digits_val(s@.subrange(*old(position) as int, e));
            if e - *old(position) == 2 && 1 <= month <= 12 {
                r == Some(month as u32) && *final(position) == e
            } else {
                r is None
            }
        }),
{
    let month = match collect_two_digits(s, position) {
        Some(m) => m,
        None => {
            return None;
        },
    };
    if !crate::is_valid_month(&month) {
        return None;
    }
    Some(month)
}

/// Parses a month component at the scan position: at least four year digits
/// with a nonzero value that fits the year type, a hyphen, and a month
/// between 1 and 12. On success the cursor stands after the month digits.
pub fn parse_month_component(s: &str, position: &mut usize) -> (r: Option<YearMonth>)
    ensures
        ({
            let res = spec_parse_month_component(s@, *old(position) as int);
            match r {
                Some(ym) => res matches Some(t) && ym.spec_year() == t.0 && ym.spec_month()
                    == t.1 && *final(position) == t.2 && ym.wf(),
                None => res is None,
            }
        }),
{
    let n = s.unicode_len();
    if *position > n {
        return None;
    }
    let (year_len, year_val) = scan_digits(s, position);
    if year_len < 4 {
        return None;
    }
    let year_u: u32 = match year_val {
        Some(v) => v,
        None => {
            return None;
        },
    };
    if year_u == 0 || year_u > 0x7fff_ffffu32 {
        return None;
    }
    let year: i32 = year_u as i32;
    if *position >= n || s.get_char(*position) != '-' {
        return None;
    }
    *position += 1;
    let month = match collect_month_and_validate(s, position) {
        Some(m) => m,
        None => {
            return None;
        },
    };
    Some(YearMonth::new(year, month))
}

/// Parses a whole string as a month; anything left over after the month
/// component is rejection.
pub fn parse_month(s: &str) -> (r: Option<YearMonth>)
    ensures
        ({
            let res = spec_parse_month(s@);
            match r {
                Some(ym) => res matches Some(t) && ym.spec_year() == t.0 && ym.spec_month()
                    == t.1 && ym.wf(),
                None => res is None,
            }
        }),
{
    let mut position: usize = 0;
    let parsed = match parse_month_component(s, &mut position) {
        Some(ym) => ym,
        None => {
            return None;
        },
    };
    proof {
        lemma_month_component_end(s@, 0);
    }
    if position < s.unicode_len() {
        return None;
    }
    Some(parsed)
}

} // verus!

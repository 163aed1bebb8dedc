//! The time microsyntax: a two-digit hour, a colon, a two-digit minute, and
//! optionally a colon followed by two-digit seconds with an optional decimal
//! fraction, parsed into a [`Time`].

use crate::scan::{
    digit_run_end, digit_value, digits_val, lemma_digit_run_end_bounds, scan_digits,
    collect_two_digits,
};
use vstd::prelude::*;

verus! {

/// A time of day: an hour from 0 to 23, a minute and a second from 0 to 59,
/// and a millisecond from 0 to 999.
#[derive(Debug, Clone, Copy, PartialEq, Eq, Structural)]
pub struct Time {
    pub(crate) hour: u32,
    pub(crate) minute: u32,
    pub(crate) second: u32,
    pub(crate) millisecond: u32,
}

impl Time {
    /// The hour component as a mathematical integer.
    pub closed spec fn spec_hour(self) -> int {
        self.hour as int
    }

    /// The minute component as a mathematical integer.
    pub closed spec fn spec_minute(self) -> int {
        self.minute as int
    }

    /// The second component as a mathematical integer.
    pub closed spec fn spec_second(self) -> int {
        self.second as int
    }

    /// The millisecond component as a mathematical integer.
    pub closed spec fn spec_millisecond(self) -> int {
        self.millisecond as int
    }

    /// A well-formed value: hour at most 23, minute and second at most 59,
    /// millisecond at most 999.
    pub open spec fn wf(self) -> bool {
        self.spec_hour() <= 23 && self.spec_minute() <= 59 && self.spec_second() <= 59
            && self.spec_millisecond() <= 999
    }

    pub(crate) fn new(hour: u32, minute: u32, second: u32, millisecond: u32) -> (r: Self)
        ensures
            r.spec_hour() == hour as int,
            r.spec_minute() == minute as int,
            r.spec_second() == second as int,
            r.spec_millisecond() == millisecond as int,
    {
        Self { hour, minute, second, millisecond }
    }

    /// Creates a `Time` when the hour is at most 23, the minute and second
    /// at most 59, and the millisecond at most 999; `None` otherwise.
    pub fn new_opt(hour: u32, minute: u32, second: u32, millisecond: u32) -> (r: Option<Self>)
        ensures
            if hour <= 23 && minute <= 59 && second <= 59 && millisecond <= 999 {
                r matches Some(t) && t.spec_hour() == hour as int && t.spec_minute()
                    == minute as int && t.spec_second() == second as int && t.spec_millisecond()
                    == millisecond as int
            } else {
                r is None
            },
    {
        if hour > 23 || minute > 59 || second > 59 || millisecond > 999 {
            return None;
        }
        Some(Self::new(hour, minute, second, millisecond))
    }

    /// The hour component, a number from 0 to 23.
    pub fn hour(&self) -> (r: u32)
        ensures
            r as int == self.spec_hour(),
    {
        self.hour
    }

    /// The minute component, a number from 0 to 59.
    pub fn minute(&self) -> (r: u32)
        ensures
            r as int == self.spec_minute(),
    {
        self.minute
    }

    /// The second component, a number from 0 to 59.
    pub fn second(&self) -> (r: u32)
        ensures
            r as int == self.spec_second(),
    {
        self.second
    }

    /// The millisecond component, a number from 0 to 999.
    pub fn millisecond(&self) -> (r: u32)
        ensures
            r as int == self.spec_millisecond(),
    {
        self.millisecond
    }
}

/// How many times a character occurs in a sequence.
pub open spec fn count_char(s: Seq<char>, c: char) -> int
    decreases s.len(),
{
    if s.len() == 0 {
        0
    } else {
        count_char(s.drop_last(), c) + if s.last() == c {
            1int
        } else {
            0int
        }
    }
}

/// Reports whether a character occurs at least `n` times in the string.
pub(crate) fn has_at_least_n_instances(s: &str, c: char, n: usize) -> (r: bool)
    ensures
        r == (count_char(s@, c) >= n),
{
    let len = s.unicode_len();
    let mut count: usize = 0;
    let mut i: usize = 0;
    while i < len
        invariant
            0 <= i <= len,
            len == s@.len(),
            count <= i,
            count == count_char(s@.subrange(0, i as int), c),
        decreases len - i,
    {
        let ghost prev = s@.subrange(0, i as int);
        let ghost cur = s@.subrange(0, i as int + 1);
        proof {
            assert(cur.drop_last() =~= prev);
            assert(cur.last() == s@[i as int]);
        }
        if s.get_char(i) == c {
            count += 1;
        }
        i += 1;
    }
    proof {
        assert(s@.subrange(0, s@.len() as int) =~= s@);
    }
    count >= n
}

/// The result of parsing a time component at a position: the hour, minute,
/// second and millisecond, and the position after the component; `None` on
/// rejection. A seconds run whose integer part is not exactly two digits, a
/// dot with no digits after it, or a second dot anywhere in the string is
/// rejection; of a longer fraction only the first three digits name the
/// millisecond.
pub open spec fn spec_parse_time_component(s: Seq<char>, pos: int) -> Option<
    (int, int, int, int, int),
> {
    let he = digit_run_end(s, pos);
    let hour = digits_val(s.subrange(pos, he));
    if he - pos != 2 || hour > 23 || !(he < s.len() && s[he] == ':') {
        None
    } else {
        let me = digit_run_end(s, he + 1);
        let minute = digits_val(s.subrange(he + 1, me));
        if me - (he + 1) != 2 || minute > 59 {
            None
        } else if me < s.len() && s[me] == ':' {
            let q = me + 1;
            let ie = digit_run_end(s, q);
            let second = digits_val(s.subrange(q, ie));
            if count_char(s, '.') >= 2 || ie - q != 2 || second > 59 {
                None
            } else if ie < s.len() && s[ie] == '.' {
                let fe = digit_run_end(s, ie + 1);
                let msend = if fe > ie + 4 {
                    ie + 4
                } else {
                    fe
                };
                let ms = digits_val(s.subrange(ie + 1, msend));
                if fe == ie + 1 {
                    None
                } else {
                    Some((hour, minute, second, ms, fe))
                }
            } else {
                Some((hour, minute, second, 0, ie))
            }
        } else {
            Some((hour, minute, 0, 0, me))
        }
    }
}

/// The result of parsing a whole string as a time, with nothing left over;
/// `None` on rejection.
pub open spec fn spec_parse_time(s: Seq<char>) -> Option<(int, int, int, int)> {
    match spec_parse_time_component(s, 0) {
        Some((hour, minute, second, ms, end)) => if end == s.len() {
            Some((hour, minute, second, ms))
        } else {
            None
        },
        None => None,
    }
}

/// A time component that parses ends after its starting position and within
/// the string.
pub proof fn lemma_time_component_end(s: Seq<char>, pos: int)
    requires
        0 <= pos,
    ensures
        spec_parse_time_component(s, pos) matches Some(t) ==> pos < t.4 <= s.len(),
{
    if spec_parse_time_component(s, pos) is Some {
        assert(pos <= s.len()) by {
            if pos > s.len() {
                assert(digit_run_end(s, pos) == pos);
            }
        }
        lemma_digit_run_end_bounds(s, pos);
        let he = digit_run_end(s, pos);
        lemma_digit_run_end_bounds(s, he + 1);
        let me = digit_run_end(s, he + 1);
        if me < s.len() && s[me] == ':' {
            lemma_digit_run_end_bounds(s, me + 1);
            let ie = digit_run_end(s, me + 1);
            if ie < s.len() && s[ie] == '.' {
                lemma_digit_run_end_bounds(s, ie + 1);
            }
        }
    }
}

/// Parses a time component at the scan position: a two-digit hour at most
/// 23, a colon, a two-digit minute at most 59, and optionally a colon
/// followed by two-digit seconds at most 59 with an optional fraction after
/// a single dot. On success the cursor stands after the last character of
/// the component.
pub fn parse_time_component(s: &str, position: &mut usize) -> (r: Option<Time>)
    ensures
        ({
            let res = spec_parse_time_component(s@, *old(position) as int);
            match r {
                Some(t) => res matches Some(v) && t.spec_hour() == v.0 && t.spec_minute() == v.1
                    && t.spec_second() == v.2 && t.spec_millisecond() == v.3 && *final(position)
                    == v.4 && t.wf(),
                None => res is None,
            }
        }),
{
    let n = s.unicode_len();
    if *position > n {
        return None;
    }
    let hour = match collect_two_digits(s, position) {
        Some(h) => h,
        None => {
            return None;
        },
    };
    if !crate::is_valid_hour(&hour) {
        return None;
    }
    proof {
        lemma_digit_run_end_bounds(s@, *old(position) as int);
    }
    if *position >= n || s.get_char(*position) != ':' {
        return None;
    }
    *position += 1;
    let minute = match collect_two_digits(s, position) {
        Some(m) => m,
        None => {
            return None;
        },
    };
    if !crate::is_valid_min_or_sec(&minute) {
        return None;
    }
    proof {
        let he = digit_run_end(s@, *old(position) as int);
        lemma_digit_run_end_bounds(s@, he + 1);
    }
    let mut second: u32 = 0;
    let mut millisecond: u32 = 0;
    if *position < n && s.get_char(*position) == ':' {
        *position += 1;
        if has_at_least_n_instances(s, '.', 2) {
            return None;
        }
        let sec = match collect_two_digits(s, position) {
            Some(v) => v,
            None => {
                return None;
            },
        };
        if !crate::is_valid_min_or_sec(&sec) {
            return None;
        }
        second = sec;
        proof {
            let he = digit_run_end(s@, *old(position) as int);
            let me = digit_run_end(s@, he + 1);
            lemma_digit_run_end_bounds(s@, me + 1);
        }
        if *position < n && s.get_char(*position) == '.' {
            *position += 1;
            let fs = *position;
            let (frac_len, _) = scan_digits(s, position);
            if frac_len == 0 {
                return None;
            }
            proof {
                lemma_digit_run_end_bounds(s@, fs as int);
            }
            let mut ms: u32 = digit_value(s.get_char(fs));
            proof {
                assert(s@.subrange(fs as int, fs as int + 1).drop_last() =~= Seq::<
                    char,
                >::empty());
                assert(s@.subrange(fs as int, fs as int + 1).last() == s@[fs as int]);
                assert(digits_val(Seq::<char>::empty()) == 0);
                assert(ms as int == digits_val(s@.subrange(fs as int, fs as int + 1)));
            }
            if frac_len >= 2 {
                ms = ms * 10 + digit_value(s.get_char(fs + 1));
                proof {
                    assert(s@.subrange(fs as int, fs as int + 2).drop_last() =~= s@.subrange(
                        fs as int,
                        fs as int + 1,
                    ));
                    assert(s@.subrange(fs as int, fs as int + 2).last() == s@[fs as int + 1]);
                    assert(ms as int == digits_val(s@.subrange(fs as int, fs as int + 2)));
                }
            }
            if frac_len >= 3 {
                ms = ms * 10 + digit_value(s.get_char(fs + 2));
                proof {
                    assert(s@.subrange(fs as int, fs as int + 3).drop_last() =~= s@.subrange(
                        fs as int,
                        fs as int + 2,
                    ));
                    assert(s@.subrange(fs as int, fs as int + 3).last() == s@[fs as int + 2]);
                    assert(ms as int == digits_val(s@.subrange(fs as int, fs as int + 3)));
                }
            }
            millisecond = ms;
        }
    }
    Some(Time::new(hour, minute, second, millisecond))
}

/// Parses a whole string as a time; anything left over after the time
/// component is rejection.
pub fn parse_time(s: &str) -> (r: Option<Time>)
    ensures
        ({
            let res = spec_parse_time(s@);
            match r {
                Some(t) => res matches Some(v) && t.spec_hour() == v.0 && t.spec_minute() == v.1
                    && t.spec_second() == v.2 && t.spec_millisecond() == v.3 && t.wf(),
                None => res is None,
            }
        }),
{
    let mut position: usize = 0;
    let parsed = match parse_time_component(s, &mut position) {
        Some(t) => t,
        None => {
            return None;
        },
    };
    proof {
        lemma_time_component_end(s@, 0);
    }
    if position < s.unicode_len() {
        return None;
    }
    Some(parsed)
}

} // verus!

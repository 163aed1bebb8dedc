//! Cursor-based scanning primitives shared by all of the format parsers: a
//! maximal digit run is consumed from a scan position, and its numeric value
//! is accumulated with an overflow check.

use vstd::prelude::*;

verus! {

/// An ASCII digit, `'0'` through `'9'`.
pub open spec fn is_ascii_digit_char(c: char) -> bool {
    48 <= c as u32 <= 57
}

/// The numeric value of a single ASCII digit character.
pub open spec fn digit_of(c: char) -> int {
    c as u32 - 48
}

/// The position at which the maximal run of ASCII digits starting at `i`
/// ends; `i` itself when `i` is outside the string or no digit stands there.
pub open spec fn digit_run_end(s: Seq<char>, i: int) -> int
    decreases s.len() - i,
{
    if 0 <= i < s.len() && is_ascii_digit_char(s[i]) {
        digit_run_end(s, i + 1)
    } else {
        i
    }
}

/// The numeric value of a sequence of ASCII digits, most significant first.
pub open spec fn digits_val(s: Seq<char>) -> int
    decreases s.len(),
{
    if s.len() == 0 {
        0
    } else {
        digits_val(s.drop_last()) * 10 + digit_of(s.last())
    }
}

/// Reports whether a character is an ASCII digit.
pub fn is_ascii_digit(c: char) -> (r: bool)
    ensures
        r == is_ascii_digit_char(c),
{
    let u = c as u32;
    48 <= u && u <= 57
}

/// The numeric value of a single ASCII digit character.
pub(crate) fn digit_value(c: char) -> (v: u32)
    requires
        is_ascii_digit_char(c),
    ensures
        v as int == digit_of(c),
        v <= 9,
{
    c as u32 - 48
}

/// A digit run that starts inside the string ends inside it, every character
/// of the run is a digit, and the character after the run, if any, is not.
pub proof fn lemma_digit_run_end_bounds(s: Seq<char>, i: int)
    requires
        0 <= i <= s.len(),
    ensures
        i <= digit_run_end(s, i) <= s.len(),
        forall|j: int| i <= j < digit_run_end(s, i) ==> is_ascii_digit_char(s[j]),
        digit_run_end(s, i) < s.len() ==> !is_ascii_digit_char(s[digit_run_end(s, i)]),
    decreases s.len() - i,
{
    if i < s.len() && is_ascii_digit_char(s[i]) {
        lemma_digit_run_end_bounds(s, i + 1);
    }
}

/// The position at which the maximal run of a given character starting at
/// `i` ends; `i` itself when `i` is outside the string or another character
/// stands there.
pub open spec fn char_run_end(s: Seq<char>, i: int, c: char) -> int
    decreases s.len() - i,
{
    if 0 <= i < s.len() && s[i] == c {
        char_run_end(s, i + 1, c)
    } else {
        i
    }
}

/// A character run that starts inside the string ends inside it, every
/// character of the run is the given one, and the character after the run,
/// if any, is not.
pub proof fn lemma_char_run_end_bounds(s: Seq<char>, i: int, c: char)
    requires
        0 <= i <= s.len(),
    ensures
        i <= char_run_end(s, i, c) <= s.len(),
        forall|j: int| i <= j < char_run_end(s, i, c) ==> s[j] == c,
        char_run_end(s, i, c) < s.len() ==> s[char_run_end(s, i, c)] != c,
    decreases s.len() - i,
{
    if i < s.len() && s[i] == c {
        lemma_char_run_end_bounds(s, i + 1, c);
    }
}

/// Consumes the maximal run of a given character at the scan position and
/// returns how many characters it consumed.
pub(crate) fn scan_char_run(s: &str, position: &mut usize, c: char) -> (count: usize)
    requires
        *old(position) <= s@.len(),
    ensures
        *final(position) == char_run_end(s@, *old(position) as int, c),
        *old(position) <= *final(position) <= s@.len(),
        count == *final(position) - *old(position),
{
    let n = s.unicode_len();
    let ghost start = *position as int;
    let mut count: usize = 0;
    loop
        invariant
            0 <= start <= *position <= n,
            n == s@.len(),
            *position - start == count,
            char_run_end(s@, *position as int, c) == char_run_end(s@, start, c),
        ensures
            0 <= start <= *position <= n,
            *position - start == count,
            *position == char_run_end(s@, start, c),
        decreases n - *position,
    {
        if *position >= n {
            break;
        }
        if s.get_char(*position) != c {
            break;
        }
        *position += 1;
        count += 1;
    }
    count
}

/// Consumes the maximal run of ASCII digits at the scan position and
/// accumulates its numeric value, which is `None` when it exceeds `u32::MAX`.
/// The returned count is the number of digits consumed.
pub(crate) fn scan_digits(s: &str, position: &mut usize) -> (r: (usize, Option<u32>))
    requires
        *old(position) <= s@.len(),
    ensures
        *final(position) == digit_run_end(s@, *old(position) as int),
        *old(position) <= *final(position) <= s@.len(),
        r.0 == *final(position) - *old(position),
        ({
            let run = s@.subrange(*old(position) as int, *final(position) as int);
            match r.1 {
                Some(v) => v == digits_val(run),
                None => digits_val(run) > u32::MAX,
            }
        }),
{
    let n = s.unicode_len();
    let ghost start = *position as int;
    proof {
        lemma_digit_run_end_bounds(s@, start);
    }
    let mut count: usize = 0;
    let mut value: Option<u32> = Some(0);
    loop
        invariant
            0 <= start <= *position <= n,
            n == s@.len(),
            *position - start == count,
            digit_run_end(s@, *position as int) == digit_run_end(s@, start),
            start <= digit_run_end(s@, start) <= n,
            match value {
                Some(v) => v == digits_val(s@.subrange(start, *position as int)),
                None => digits_val(s@.subrange(start, *position as int)) > u32::MAX,
            },
        ensures
            0 <= start <= *position <= n,
            *position - start == count,
            *position == digit_run_end(s@, start),
            match value {
                Some(v) => v == digits_val(s@.subrange(start, *position as int)),
                None => digits_val(s@.subrange(start, *position as int)) > u32::MAX,
            },
        decreases n - *position,
    {
        if *position >= n {
            break;
        }
        let c = s.get_char(*position);
        if !is_ascii_digit(c) {
            break;
        }
        let d: u32 = c as u32 - 48;
        let ghost prev = s@.subrange(start, *position as int);
        let ghost cur = s@.subrange(start, *position as int + 1);
        proof {
            assert(cur.drop_last() =~= prev);
            assert(cur.last() == s@[*position as int]);
        }
        value = match value {
            Some(v) => {
                let widened: u64 = v as u64 * 10 + d as u64;
                if widened > u32::MAX as u64 {
                    None
                } else {
                    Some(widened as u32)
                }
            },
            None => None,
        };
        *position += 1;
        count += 1;
    }
    (count, value)
}

/// Consumes the maximal run of ASCII digits at the scan position and returns
/// its value only when the run is exactly two digits long.
pub(crate) fn collect_two_digits(s: &str, position: &mut usize) -> (r: Option<u32>)
    requires
        *old(position) <= s@.len(),
    ensures
        ({
            let e = digit_run_end(s@, *old(position) as int);
            let run = s@.subrange(*old(position) as int, e);
            if e - *old(position) == 2 {
                r == Some(digits_val(run) as u32) && *final(position) == e && 0 <= digits_val(run)
                    <= 99
            } else {
                r is None
            }
        }),
{
    proof {
        lemma_digit_run_end_bounds(s@, *position as int);
    }
    let (count, value) = scan_digits(s, position);
    if count != 2 {
        return None;
    }
    proof {
        let e = digit_run_end(s@, *old(position) as int);
        let run = s@.subrange(*old(position) as int, e);
        lemma_digits_val_bound(run);
    }
    match value {
        Some(v) => Some(v),
        None => None,
    }
}

/// A run of `n` digits has a value below `10^n`; stated for the two-digit
/// runs the fixed-width fields use.
pub proof fn lemma_digits_val_bound(s: Seq<char>)
    requires
        forall|j: int| 0 <= j < s.len() ==> is_ascii_digit_char(s[j]),
    ensures
        0 <= digits_val(s),
        s.len() == 1 ==> digits_val(s) <= 9,
        s.len() == 2 ==> digits_val(s) <= 99,
        s.len() == 3 ==> digits_val(s) <= 999,
        s.len() == 4 ==> digits_val(s) <= 9999,
    decreases s.len(),
{
    if s.len() > 0 {
        lemma_digits_val_bound(s.drop_last());
    }
}

} // verus!

//! Canonical renderings of parsed values, and the round-trip laws: parsing
//! the canonical rendering of a valid value yields that value back. The
//! renderings are specification-level; each gives one accepted spelling of a
//! value, with every numeric field zero-padded to its usual width.

use crate::scan::{digit_of, digit_run_end, digits_val, is_ascii_digit_char};
use vstd::prelude::*;

verus! {

/// The character of a single decimal digit.
pub open spec fn digit_char(d: int) -> char {
    if d == 0 {
        '0'
    } else if d == 1 {
        '1'
    } else if d == 2 {
        '2'
    } else if d == 3 {
        '3'
    } else if d == 4 {
        '4'
    } else if d == 5 {
        '5'
    } else if d == 6 {
        '6'
    } else if d == 7 {
        '7'
    } else if d == 8 {
        '8'
    } else {
        '9'
    }
}

/// The decimal digits of a nonnegative number, most significant first,
/// without leading zeros.
pub open spec fn dec_digits(n: int) -> Seq<char>
    decreases n,
{
    if n < 10 {
        seq![digit_char(n)]
    } else {
        dec_digits(n / 10).push(digit_char(n % 10))
    }
}

/// A run of zero characters.
pub open spec fn zeros(k: int) -> Seq<char>
    decreases k,
{
    if k <= 0 {
        Seq::empty()
    } else {
        zeros(k - 1).push('0')
    }
}

/// The decimal digits of a nonnegative number, zero-padded on the left to
/// at least the given width.
pub open spec fn pad_digits(n: int, width: int) -> Seq<char> {
    zeros(width - dec_digits(n).len()) + dec_digits(n)
}

/// Every character of `dec_digits` is a digit, the value of the digits is
/// the number itself, and a number below 100 has at most two digits.
pub proof fn lemma_dec_digits(n: int)
    requires
        0 <= n,
    ensures
        1 <= dec_digits(n).len(),
        forall|j: int| 0 <= j < dec_digits(n).len() ==> is_ascii_digit_char(#[trigger] dec_digits(n)[j]),
        digits_val(dec_digits(n)) == n,
        n < 10 ==> dec_digits(n).len() == 1,
        n < 100 ==> dec_digits(n).len() <= 2,
        n < 1000 ==> dec_digits(n).len() <= 3,
        n < 10000 ==> dec_digits(n).len() <= 4,
    decreases n,
{
    if n < 10 {
        assert(dec_digits(n) =~= seq![digit_char(n)]);
        assert(dec_digits(n).drop_last() =~= Seq::<char>::empty());
        assert(digits_val(Seq::<char>::empty()) == 0);
        assert(digit_of(digit_char(n)) == n);
    } else {
        lemma_dec_digits(n / 10);
        let prefix = dec_digits(n / 10);
        let whole = dec_digits(n);
        assert(whole =~= prefix.push(digit_char(n % 10)));
        assert(whole.drop_last() =~= prefix);
        assert(whole.last() == digit_char(n % 10));
        assert(digit_of(digit_char(n % 10)) == n % 10);
        assert(digits_val(whole) == digits_val(prefix) * 10 + n % 10);
    }
}

/// Every character of `zeros` is the digit zero, and its value is zero.
pub proof fn lemma_zeros(k: int)
    ensures
        zeros(k).len() == if k <= 0 {
            0int
        } else {
            k
        },
        forall|j: int| 0 <= j < zeros(k).len() ==> #[trigger] zeros(k)[j] == '0',
        digits_val(zeros(k)) == 0,
    decreases k,
{
    if k > 0 {
        lemma_zeros(k - 1);
        assert(zeros(k) =~= zeros(k - 1).push('0'));
        assert(zeros(k).drop_last() =~= zeros(k - 1));
        assert(zeros(k).last() == '0');
        assert(digit_of('0') == 0);
    }
}

/// Zeros prepended to a digit sequence leave its value unchanged.
pub proof fn lemma_digits_val_prepend_zeros(k: int, t: Seq<char>)
    ensures
        digits_val(zeros(k) + t) == digits_val(t),
    decreases t.len(),
{
    lemma_zeros(k);
    if t.len() == 0 {
        assert(zeros(k) + t =~= zeros(k));
    } else {
        lemma_digits_val_prepend_zeros(k, t.drop_last());
        assert((zeros(k) + t).drop_last() =~= zeros(k) + t.drop_last());
        assert((zeros(k) + t).last() == t.last());
    }
}

/// The padded digits of a number have at least the asked width, every
/// character is a digit, and their value is the number itself.
pub proof fn lemma_pad_digits(n: int, width: int)
    requires
        0 <= n,
    ensures
        pad_digits(n, width).len() >= width,
        pad_digits(n, width).len() >= 1,
        forall|j: int|
            0 <= j < pad_digits(n, width).len() ==> is_ascii_digit_char(
                #[trigger] pad_digits(n, width)[j],
            ),
        digits_val(pad_digits(n, width)) == n,
{
    lemma_dec_digits(n);
    lemma_zeros(width - dec_digits(n).len());
    lemma_digits_val_prepend_zeros(width - dec_digits(n).len(), dec_digits(n));
    assert forall|j: int| 0 <= j < pad_digits(n, width).len() implies is_ascii_digit_char(
        #[trigger] pad_digits(n, width)[j],
    ) by {
        let k = width - dec_digits(n).len();
        if j < zeros(k).len() {
            assert(pad_digits(n, width)[j] == zeros(k)[j]);
            assert(is_ascii_digit_char('0'));
        } else {
            assert(pad_digits(n, width)[j] == dec_digits(n)[j - zeros(k).len()]);
        }
    }
}

/// The padded digits of a number below 100, at width two, are exactly two
/// digits.
pub proof fn lemma_pad_digits_width2(n: int)
    requires
        0 <= n < 100,
    ensures
        pad_digits(n, 2).len() == 2,
{
    lemma_dec_digits(n);
    lemma_zeros(2 - dec_digits(n).len());
}

/// The padded digits of a number below 1000, at width three, are exactly
/// three digits.
pub proof fn lemma_pad_digits_width3(n: int)
    requires
        0 <= n < 1000,
    ensures
        pad_digits(n, 3).len() == 3,
{
    lemma_dec_digits(n);
    lemma_zeros(3 - dec_digits(n).len());
}

/// A maximal digit run is delimited by what stands around it: where the
/// characters from `i` to `j` are digits and `j` holds no digit or ends the
/// string, the run from `i` ends at `j`.
pub proof fn lemma_digit_run_is(s: Seq<char>, i: int, j: int)
    requires
        0 <= i <= j <= s.len(),
        forall|k: int| i <= k < j ==> is_ascii_digit_char(s[k]),
        j == s.len() || !is_ascii_digit_char(s[j]),
    ensures
        digit_run_end(s, i) == j,
    decreases j - i,
{
    if i < j {
        lemma_digit_run_is(s, i + 1, j);
    }
}

/// The canonical spelling of a month: the year padded to four digits, a
/// hyphen, and the month padded to two.
pub open spec fn spec_render_month(y: int, m: int) -> Seq<char> {
    pad_digits(y, 4) + seq!['-'] + pad_digits(m, 2)
}

/// The canonical spelling of a date: the month spelling, a hyphen, and the
/// day padded to two digits.
pub open spec fn spec_render_date(y: int, m: int, d: int) -> Seq<char> {
    spec_render_month(y, m) + seq!['-'] + pad_digits(d, 2)
}

/// Parsing a month component recovers a valid year and month from their
/// canonical spelling, wherever that spelling stands, provided no digit
/// follows it directly.
pub proof fn lemma_month_component_at(s: Seq<char>, pos: int, y: int, m: int)
    requires
        0 <= pos,
        1 <= y <= i32::MAX,
        1 <= m <= 12,
        pos + spec_render_month(y, m).len() <= s.len(),
        s.subrange(pos, pos + spec_render_month(y, m).len() as int) == spec_render_month(y, m),
        pos + spec_render_month(y, m).len() == s.len() || !is_ascii_digit_char(
            s[pos + spec_render_month(y, m).len()],
        ),
    ensures
        crate::month::spec_parse_month_component(s, pos) == Some(
            (y, m, pos + spec_render_month(y, m).len()),
        ),
{
    lemma_pad_digits(y, 4);
    lemma_pad_digits(m, 2);
    lemma_pad_digits_width2(m);
    let ypad = pad_digits(y, 4);
    let mpad = pad_digits(m, 2);
    let r = spec_render_month(y, m);
    let a = ypad.len() as int;
    assert(r.len() == a + 3);
    assert forall|j: int| 0 <= j < r.len() implies s[pos + j] == r[j] by {
        assert(s.subrange(pos, pos + r.len() as int)[j] == s[pos + j]);
    }
    assert(a >= 4);
    assert(forall|j: int| 0 <= j < a ==> r[j] == ypad[j]);
    assert(r[a] == '-');
    assert(forall|j: int| 0 <= j < 2 ==> r[a + 1 + j] == mpad[j]);
    assert(!is_ascii_digit_char('-')) by {
        assert('-' as u32 == 45);
    }
    assert forall|k: int| pos <= k < pos + a implies is_ascii_digit_char(s[k]) by {
        let j = k - pos;
        assert(s[pos + j] == r[j]);
        assert(r[j] == ypad[j]);
        assert(is_ascii_digit_char(ypad[j]));
    }
    lemma_digit_run_is(s, pos, pos + a);
    assert(s.subrange(pos, pos + a) =~= ypad);
    assert forall|k: int| pos + a + 1 <= k < pos + a + 3 implies is_ascii_digit_char(s[k]) by {
        let j = k - (pos + a + 1);
        assert(s[pos + (a + 1 + j)] == r[a + 1 + j]);
        assert(r[a + 1 + j] == mpad[j]);
        assert(is_ascii_digit_char(mpad[j]));
    }
    lemma_digit_run_is(s, pos + a + 1, pos + a + 3);
    assert(s.subrange(pos + a + 1, pos + a + 3) =~= mpad);
}

/// Parsing a date component recovers a valid date from its canonical
/// spelling, wherever that spelling stands, provided no digit follows it
/// directly.
pub proof fn lemma_date_component_at(s: Seq<char>, pos: int, y: int, m: int, d: int)
    requires
        0 <= pos,
        1 <= y <= i32::MAX,
        1 <= m <= 12,
        1 <= d <= crate::calendar::spec_max_days_in_month(m, y),
        pos + spec_render_date(y, m, d).len() <= s.len(),
        s.subrange(pos, pos + spec_render_date(y, m, d).len() as int) == spec_render_date(
            y,
            m,
            d,
        ),
        pos + spec_render_date(y, m, d).len() == s.len() || !is_ascii_digit_char(
            s[pos + spec_render_date(y, m, d).len()],
        ),
    ensures
        crate::date::spec_parse_date_component(s, pos) == Some(
            (y, m, d, pos + spec_render_date(y, m, d).len()),
        ),
{
    lemma_pad_digits(y, 4);
    lemma_pad_digits(m, 2);
    lemma_pad_digits_width2(m);
    lemma_pad_digits(d, 2);
    lemma_pad_digits_width2(d);
    let rm = spec_render_month(y, m);
    let dpad = pad_digits(d, 2);
    let r = spec_render_date(y, m, d);
    let b = rm.len() as int;
    assert(r.len() == b + 3);
    assert forall|j: int| 0 <= j < r.len() implies s[pos + j] == r[j] by {
        assert(s.subrange(pos, pos + r.len() as int)[j] == s[pos + j]);
    }
    assert(forall|j: int| 0 <= j < b ==> r[j] == rm[j]);
    assert(r[b] == '-');
    assert(forall|j: int| 0 <= j < 2 ==> r[b + 1 + j] == dpad[j]);
    assert(!is_ascii_digit_char('-')) by {
        assert('-' as u32 == 45);
    }
    assert(s.subrange(pos, pos + b) =~= rm);
    lemma_month_component_at(s, pos, y, m);
    assert forall|k: int| pos + b + 1 <= k < pos + b + 3 implies is_ascii_digit_char(s[k]) by {
        let j = k - (pos + b + 1);
        assert(s[pos + (b + 1 + j)] == r[b + 1 + j]);
        assert(r[b + 1 + j] == dpad[j]);
        assert(is_ascii_digit_char(dpad[j]));
    }
    lemma_digit_run_is(s, pos + b + 1, pos + b + 3);
    assert(s.subrange(pos + b + 1, pos + b + 3) =~= dpad);
}

/// Parsing the canonical spelling of any valid date yields exactly that
/// date: the year, month and day come back unchanged.
pub proof fn lemma_parse_date_roundtrip(y: int, m: int, d: int)
    requires
        1 <= y <= i32::MAX,
        1 <= m <= 12,
        1 <= d <= crate::calendar::spec_max_days_in_month(m, y),
    ensures
        crate::date::spec_parse_date(spec_render_date(y, m, d)) == Some((y, m, d)),
{
    let r = spec_render_date(y, m, d);
    assert(r.subrange(0, r.len() as int) =~= r);
    lemma_date_component_at(r, 0, y, m, d);
}

/// Parsing the canonical spelling of any valid year and month yields
/// exactly that pair.
pub proof fn lemma_parse_month_roundtrip(y: int, m: int)
    requires
        1 <= y <= i32::MAX,
        1 <= m <= 12,
    ensures
        crate::month::spec_parse_month(spec_render_month(y, m)) == Some((y, m)),
{
    let r = spec_render_month(y, m);
    assert(r.subrange(0, r.len() as int) =~= r);
    lemma_month_component_at(r, 0, y, m);
}

/// A date component and a month component parsed over the same prefix agree
/// on the year and the month.
pub proof fn lemma_date_component_month_prefix(s: Seq<char>, pos: int)
    ensures
        crate::date::spec_parse_date_component(s, pos) matches Some(t) ==> (
        crate::month::spec_parse_month_component(s, pos) matches Some(u) && u.0 == t.0 && u.1
            == t.1),
{
}

/// A character's occurrences in a concatenation are its occurrences in the
/// parts, added.
pub proof fn lemma_count_char_concat(a: Seq<char>, b: Seq<char>, c: char)
    ensures
        crate::time::count_char(a + b, c) == crate::time::count_char(a, c)
            + crate::time::count_char(b, c),
    decreases b.len(),
{
    if b.len() == 0 {
        assert(a + b =~= a);
    } else {
        lemma_count_char_concat(a, b.drop_last(), c);
        assert((a + b).drop_last() =~= a + b.drop_last());
        assert((a + b).last() == b.last());
    }
}

/// A character that occurs nowhere in a sequence is counted zero times.
pub proof fn lemma_count_char_none(s: Seq<char>, c: char)
    requires
        forall|j: int| 0 <= j < s.len() ==> s[j] != c,
    ensures
        crate::time::count_char(s, c) == 0,
    decreases s.len(),
{
    if s.len() > 0 {
        lemma_count_char_none(s.drop_last(), c);
    }
}

/// Digit characters are never a dot, so a digit sequence counts no dots.
pub proof fn lemma_count_dots_of_digits(s: Seq<char>)
    requires
        forall|j: int| 0 <= j < s.len() ==> is_ascii_digit_char(s[j]),
    ensures
        crate::time::count_char(s, '.') == 0,
{
    assert('.' as u32 == 46);
    lemma_count_char_none(s, '.');
}

/// The canonical spelling of a time: hour and minute padded to two digits
/// and separated by a colon; the seconds, where the second or millisecond
/// is nonzero, after another colon; the millisecond, where nonzero, padded
/// to three digits after a dot.
pub open spec fn spec_render_time(h: int, mi: int, sec: int, ms: int) -> Seq<char> {
    if sec == 0 && ms == 0 {
        pad_digits(h, 2) + seq![':'] + pad_digits(mi, 2)
    } else if ms == 0 {
        pad_digits(h, 2) + seq![':'] + pad_digits(mi, 2) + seq![':'] + pad_digits(sec, 2)
    } else {
        pad_digits(h, 2) + seq![':'] + pad_digits(mi, 2) + seq![':'] + pad_digits(sec, 2)
            + seq!['.'] + pad_digits(ms, 3)
    }
}

/// How many dots the canonical spelling of a time holds: one when the
/// millisecond is nonzero, none otherwise.
pub proof fn lemma_render_time_dots(h: int, mi: int, sec: int, ms: int)
    requires
        0 <= h,
        0 <= mi,
        0 <= sec,
        0 <= ms,
    ensures
        crate::time::count_char(spec_render_time(h, mi, sec, ms), '.') == if ms == 0 {
            0int
        } else {
            1int
        },
{
    lemma_pad_digits(h, 2);
    lemma_pad_digits(mi, 2);
    lemma_pad_digits(sec, 2);
    lemma_pad_digits(ms, 3);
    lemma_count_dots_of_digits(pad_digits(h, 2));
    lemma_count_dots_of_digits(pad_digits(mi, 2));
    lemma_count_dots_of_digits(pad_digits(sec, 2));
    lemma_count_dots_of_digits(pad_digits(ms, 3));
    assert(crate::time::count_char(seq![':'], '.') == 0) by {
        assert(seq![':'].drop_last() =~= Seq::<char>::empty());
        assert(crate::time::count_char(Seq::<char>::empty(), '.') == 0);
        assert(seq![':'].last() == ':');
    }
    assert(crate::time::count_char(seq!['.'], '.') == 1) by {
        assert(seq!['.'].drop_last() =~= Seq::<char>::empty());
        assert(crate::time::count_char(Seq::<char>::empty(), '.') == 0);
        assert(seq!['.'].last() == '.');
    }
    if sec == 0 && ms == 0 {
        lemma_count_char_concat(pad_digits(h, 2), seq![':'], '.');
        lemma_count_char_concat(pad_digits(h, 2) + seq![':'], pad_digits(mi, 2), '.');
    } else if ms == 0 {
        lemma_count_char_concat(pad_digits(h, 2), seq![':'], '.');
        lemma_count_char_concat(pad_digits(h, 2) + seq![':'], pad_digits(mi, 2), '.');
        lemma_count_char_concat(pad_digits(h, 2) + seq![':'] + pad_digits(mi, 2), seq![':'], '.');
        lemma_count_char_concat(
            pad_digits(h, 2) + seq![':'] + pad_digits(mi, 2) + seq![':'],
            pad_digits(sec, 2),
            '.',
        );
    } else {
        lemma_count_char_concat(pad_digits(h, 2), seq![':'], '.');
        lemma_count_char_concat(pad_digits(h, 2) + seq![':'], pad_digits(mi, 2), '.');
        lemma_count_char_concat(pad_digits(h, 2) + seq![':'] + pad_digits(mi, 2), seq![':'], '.');
        lemma_count_char_concat(
            pad_digits(h, 2) + seq![':'] + pad_digits(mi, 2) + seq![':'],
            pad_digits(sec, 2),
            '.',
        );
        lemma_count_char_concat(
            pad_digits(h, 2) + seq![':'] + pad_digits(mi, 2) + seq![':'] + pad_digits(sec, 2),
            seq!['.'],
            '.',
        );
        lemma_count_char_concat(
            pad_digits(h, 2) + seq![':'] + pad_digits(mi, 2) + seq![':'] + pad_digits(sec, 2)
                + seq!['.'],
            pad_digits(ms, 3),
            '.',
        );
    }
}

/// Parsing a time component recovers a valid time from its canonical
/// spelling, wherever that spelling stands, provided the string holds no
/// second dot and no digit, colon or dot follows the spelling directly.
pub proof fn lemma_time_component_at(s: Seq<char>, pos: int, h: int, mi: int, sec: int, ms: int)
    requires
        0 <= pos,
        0 <= h <= 23,
        0 <= mi <= 59,
        0 <= sec <= 59,
        0 <= ms <= 999,
        pos + spec_render_time(h, mi, sec, ms).len() <= s.len(),
        s.subrange(pos, pos + spec_render_time(h, mi, sec, ms).len() as int) == spec_render_time(
            h,
            mi,
            sec,
            ms,
        ),
        pos + spec_render_time(h, mi, sec, ms).len() == s.len() || (!is_ascii_digit_char(
            s[pos + spec_render_time(h, mi, sec, ms).len()],
        ) && s[pos + spec_render_time(h, mi, sec, ms).len()] != ':' && s[pos + spec_render_time(
            h,
            mi,
            sec,
            ms,
        ).len()] != '.'),
        crate::time::count_char(s, '.') < 2,
    ensures
        crate::time::spec_parse_time_component(s, pos) == Some(
            (h, mi, sec, ms, pos + spec_render_time(h, mi, sec, ms).len()),
        ),
{
    lemma_pad_digits(h, 2);
    lemma_pad_digits_width2(h);
    lemma_pad_digits(mi, 2);
    lemma_pad_digits_width2(mi);
    lemma_pad_digits(sec, 2);
    lemma_pad_digits_width2(sec);
    lemma_pad_digits(ms, 3);
    lemma_pad_digits_width3(ms);
    let hp = pad_digits(h, 2);
    let mp = pad_digits(mi, 2);
    let sp = pad_digits(sec, 2);
    let msp = pad_digits(ms, 3);
    let r = spec_render_time(h, mi, sec, ms);
    assert(!is_ascii_digit_char(':')) by {
        assert(':' as u32 == 58);
    }
    assert(!is_ascii_digit_char('.')) by {
        assert('.' as u32 == 46);
    }
    assert forall|j: int| 0 <= j < r.len() implies s[pos + j] == r[j] by {
        assert(s.subrange(pos, pos + r.len() as int)[j] == s[pos + j]);
    }
    assert(forall|j: int| 0 <= j < 2 ==> r[j] == hp[j]);
    assert(r[2] == ':');
    assert(forall|j: int| 0 <= j < 2 ==> r[3 + j] == mp[j]);
    assert forall|k: int| pos <= k < pos + 2 implies is_ascii_digit_char(s[k]) by {
        let j = k - pos;
        assert(s[pos + j] == r[j]);
        assert(is_ascii_digit_char(hp[j]));
    }
    lemma_digit_run_is(s, pos, pos + 2);
    assert(s.subrange(pos, pos + 2) =~= hp);
    assert forall|k: int| pos + 3 <= k < pos + 5 implies is_ascii_digit_char(s[k]) by {
        let j = k - (pos + 3);
        assert(s[pos + (3 + j)] == r[3 + j]);
        assert(is_ascii_digit_char(mp[j]));
    }
    if sec == 0 && ms == 0 {
        assert(r.len() == 5);
        lemma_digit_run_is(s, pos + 3, pos + 5);
        assert(s.subrange(pos + 3, pos + 5) =~= mp);
    } else {
        assert(r[5] == ':');
        assert(forall|j: int| 0 <= j < 2 ==> r[6 + j] == sp[j]);
        lemma_digit_run_is(s, pos + 3, pos + 5);
        assert(s.subrange(pos + 3, pos + 5) =~= mp);
        assert forall|k: int| pos + 6 <= k < pos + 8 implies is_ascii_digit_char(s[k]) by {
            let j = k - (pos + 6);
            assert(s[pos + (6 + j)] == r[6 + j]);
            assert(is_ascii_digit_char(sp[j]));
        }
        if ms == 0 {
            assert(r.len() == 8);
            lemma_digit_run_is(s, pos + 6, pos + 8);
            assert(s.subrange(pos + 6, pos + 8) =~= sp);
        } else {
            assert(r.len() == 12);
            assert(r[8] == '.');
            assert(forall|j: int| 0 <= j < 3 ==> r[9 + j] == msp[j]);
            lemma_digit_run_is(s, pos + 6, pos + 8);
            assert(s.subrange(pos + 6, pos + 8) =~= sp);
            assert forall|k: int| pos + 9 <= k < pos + 12 implies is_ascii_digit_char(s[k]) by {
                let j = k - (pos + 9);
                assert(s[pos + (9 + j)] == r[9 + j]);
                assert(is_ascii_digit_char(msp[j]));
            }
            lemma_digit_run_is(s, pos + 9, pos + 12);
            assert(s.subrange(pos + 9, pos + 12) =~= msp);
        }
    }
}

/// Parsing the canonical spelling of any valid time yields exactly that
/// time.
pub proof fn lemma_parse_time_roundtrip(h: int, mi: int, sec: int, ms: int)
    requires
        0 <= h <= 23,
        0 <= mi <= 59,
        0 <= sec <= 59,
        0 <= ms <= 999,
    ensures
        crate::time::spec_parse_time(spec_render_time(h, mi, sec, ms)) == Some((h, mi, sec, ms)),
{
    let r = spec_render_time(h, mi, sec, ms);
    assert(r.subrange(0, r.len() as int) =~= r);
    lemma_render_time_dots(h, mi, sec, ms);
    lemma_time_component_at(r, 0, h, mi, sec, ms);
}

/// The canonical spelling of a time-zone offset: `Z` for the zero offset, a
/// sign and `HH:MM` otherwise.
pub open spec fn spec_render_timezone_offset(oh: int, om: int) -> Seq<char> {
    if oh == 0 && om == 0 {
        seq!['Z']
    } else {
        let sign = if oh < 0 || om < 0 {
            '-'
        } else {
            '+'
        };
        let ha = if oh < 0 {
            -oh
        } else {
            oh
        };
        let ma = if om < 0 {
            -om
        } else {
            om
        };
        seq![sign] + pad_digits(ha, 2) + seq![':'] + pad_digits(ma, 2)
    }
}

/// Parsing a time-zone offset component recovers a valid offset from its
/// canonical spelling, wherever that spelling stands at the end of the
/// string.
pub proof fn lemma_timezone_offset_component_at(s: Seq<char>, pos: int, oh: int, om: int)
    requires
        0 <= pos,
        -23 <= oh <= 23,
        -59 <= om <= 59,
        (oh >= 0 && om >= 0) || (oh <= 0 && om <= 0),
        pos + spec_render_timezone_offset(oh, om).len() == s.len(),
        s.subrange(pos, s.len() as int) == spec_render_timezone_offset(oh, om),
    ensures
        crate::timezone_offset::spec_parse_timezone_offset_component(s, pos) == Some(
            (oh, om, s.len() as int),
        ),
{
    let r = spec_render_timezone_offset(oh, om);
    assert forall|j: int| 0 <= j < r.len() implies s[pos + j] == r[j] by {
        assert(s.subrange(pos, s.len() as int)[j] == s[pos + j]);
    }
    assert(s.subrange(pos, s.len() as int)[0] == s[pos]);
    assert(r[0] == s[pos]);
    if oh == 0 && om == 0 {
        assert(s[pos] == 'Z');
    } else {
        let ha = if oh < 0 {
            -oh
        } else {
            oh
        };
        let ma = if om < 0 {
            -om
        } else {
            om
        };
        lemma_pad_digits(ha, 2);
        lemma_pad_digits_width2(ha);
        lemma_pad_digits(ma, 2);
        lemma_pad_digits_width2(ma);
        let hp = pad_digits(ha, 2);
        let mp = pad_digits(ma, 2);
        assert(r.len() == 6);
        assert(forall|j: int| 0 <= j < 2 ==> r[1 + j] == hp[j]);
        assert(r[3] == ':');
        assert(forall|j: int| 0 <= j < 2 ==> r[4 + j] == mp[j]);
        assert(s[pos] == '+' || s[pos] == '-');
        assert(s[pos] != 'Z');
        assert(!is_ascii_digit_char(':')) by {
            assert(':' as u32 == 58);
        }
        assert forall|k: int| pos + 1 <= k < pos + 3 implies is_ascii_digit_char(s[k]) by {
            let j = k - (pos + 1);
            assert(s[pos + (1 + j)] == r[1 + j]);
            assert(is_ascii_digit_char(hp[j]));
        }
        lemma_digit_run_is(s, pos + 1, pos + 3);
        assert(s.subrange(pos + 1, pos + 3) =~= hp);
        assert forall|k: int| pos + 4 <= k < pos + 6 implies is_ascii_digit_char(s[k]) by {
            let j = k - (pos + 4);
            assert(s[pos + (4 + j)] == r[4 + j]);
            assert(is_ascii_digit_char(mp[j]));
        }
        lemma_digit_run_is(s, pos + 4, pos + 6);
        assert(s.subrange(pos + 4, pos + 6) =~= mp);
    }
}

/// Parsing the canonical spelling of any valid time-zone offset yields
/// exactly that offset.
pub proof fn lemma_parse_timezone_offset_roundtrip(oh: int, om: int)
    requires
        -23 <= oh <= 23,
        -59 <= om <= 59,
        (oh >= 0 && om >= 0) || (oh <= 0 && om <= 0),
    ensures
        crate::timezone_offset::spec_parse_timezone_offset(spec_render_timezone_offset(oh, om))
            == Some((oh, om)),
{
    let r = spec_render_timezone_offset(oh, om);
    assert(r.subrange(0, r.len() as int) =~= r);
    lemma_timezone_offset_component_at(r, 0, oh, om);
}

/// The canonical spelling of a week: the year padded to four digits, a
/// hyphen, the letter `W`, and the week number padded to two digits.
pub open spec fn spec_render_week(y: int, w: int) -> Seq<char> {
    pad_digits(y, 4) + seq!['-', 'W'] + pad_digits(w, 2)
}

/// Parsing the canonical spelling of any valid week yields exactly that
/// year and week number.
pub proof fn lemma_parse_week_roundtrip(y: int, w: int)
    requires
        1 <= y <= crate::calendar::CAL_MAX_YEAR as int,
        1 <= w <= crate::calendar::spec_week_count(y),
    ensures
        crate::week::spec_parse_week(spec_render_week(y, w)) == Some((y, w)),
{
    lemma_pad_digits(y, 4);
    lemma_pad_digits(w, 2);
    lemma_pad_digits_width2(w);
    let yp = pad_digits(y, 4);
    let wp = pad_digits(w, 2);
    let s = spec_render_week(y, w);
    let a = yp.len() as int;
    assert(s.len() == a + 4);
    assert(forall|j: int| 0 <= j < a ==> s[j] == yp[j]);
    assert(s[a] == '-');
    assert(s[a + 1] == 'W');
    assert(forall|j: int| 0 <= j < 2 ==> s[a + 2 + j] == wp[j]);
    assert(!is_ascii_digit_char('-')) by {
        assert('-' as u32 == 45);
    }
    assert forall|k: int| 0 <= k < a implies is_ascii_digit_char(s[k]) by {
        assert(s[k] == yp[k]);
        assert(is_ascii_digit_char(yp[k]));
    }
    lemma_digit_run_is(s, 0, a);
    assert(s.subrange(0, a) =~= yp);
    assert forall|k: int| a + 2 <= k < a + 4 implies is_ascii_digit_char(s[k]) by {
        let j = k - (a + 2);
        assert(s[a + 2 + j] == wp[j]);
        assert(is_ascii_digit_char(wp[j]));
    }
    lemma_digit_run_is(s, a + 2, a + 4);
    assert(s.subrange(a + 2, a + 4) =~= wp);
}

/// The canonical spelling of a yearless date: the month and the day, each
/// padded to two digits, separated by a hyphen, without the optional
/// leading hyphens.
pub open spec fn spec_render_yearless_date(m: int, d: int) -> Seq<char> {
    pad_digits(m, 2) + seq!['-'] + pad_digits(d, 2)
}

/// Parsing the canonical spelling of any valid yearless date yields exactly
/// that month and day.
pub proof fn lemma_parse_yearless_date_roundtrip(m: int, d: int)
    requires
        1 <= m <= 12,
        1 <= d <= crate::date::spec_month_day_cap(m),
    ensures
        crate::yearless_date::spec_parse_yearless_date(spec_render_yearless_date(m, d)) == Some(
            (m, d),
        ),
{
    lemma_pad_digits(m, 2);
    lemma_pad_digits_width2(m);
    lemma_pad_digits(d, 2);
    lemma_pad_digits_width2(d);
    let mp = pad_digits(m, 2);
    let dp = pad_digits(d, 2);
    let s = spec_render_yearless_date(m, d);
    assert(s.len() == 5);
    assert(forall|j: int| 0 <= j < 2 ==> s[j] == mp[j]);
    assert(s[2] == '-');
    assert(forall|j: int| 0 <= j < 2 ==> s[3 + j] == dp[j]);
    assert(!is_ascii_digit_char('-')) by {
        assert('-' as u32 == 45);
    }
    assert(s[0] != '-') by {
        assert(is_ascii_digit_char(mp[0]));
    }
    assert(crate::scan::char_run_end(s, 0, '-') == 0);
    assert forall|k: int| 0 <= k < 2 implies is_ascii_digit_char(s[k]) by {
        assert(s[k] == mp[k]);
        assert(is_ascii_digit_char(mp[k]));
    }
    lemma_digit_run_is(s, 0, 2);
    assert(s.subrange(0, 2) =~= mp);
    assert forall|k: int| 3 <= k < 5 implies is_ascii_digit_char(s[k]) by {
        let j = k - 3;
        assert(s[3 + j] == dp[j]);
        assert(is_ascii_digit_char(dp[j]));
    }
    lemma_digit_run_is(s, 3, 5);
    assert(s.subrange(3, 5) =~= dp);
}

/// Subtracting the zero offset leaves the date and the time of day
/// unchanged.
pub proof fn lemma_apply_zero_offset(y: int, m: int, d: int, h: int, mi: int)
    requires
        0 <= h <= 23,
        0 <= mi <= 59,
    ensures
        crate::global_datetime::spec_apply_offset(y, m, d, h, mi, 0, 0) == Some((y, m, d, h, mi)),
{
    let t = h * 60 + mi;
    assert(0 <= t < 1440);
    assert(t / 60 == h && t % 60 == mi) by (nonlinear_arith)
        requires
            t == h * 60 + mi,
            0 <= h,
            0 <= mi < 60,
    ;
}

/// The canonical spelling of a local date-time: the date, the letter `T`,
/// and the time.
pub open spec fn spec_render_local_datetime(
    y: int,
    m: int,
    d: int,
    h: int,
    mi: int,
    sec: int,
    ms: int,
) -> Seq<char> {
    spec_render_date(y, m, d) + seq!['T'] + spec_render_time(h, mi, sec, ms)
}

/// Parsing the canonical spelling of any valid local date-time yields
/// exactly that date and time.
pub proof fn lemma_parse_local_datetime_roundtrip(
    y: int,
    m: int,
    d: int,
    h: int,
    mi: int,
    sec: int,
    ms: int,
)
    requires
        1 <= y <= i32::MAX,
        1 <= m <= 12,
        1 <= d <= crate::calendar::spec_max_days_in_month(m, y),
        0 <= h <= 23,
        0 <= mi <= 59,
        0 <= sec <= 59,
        0 <= ms <= 999,
    ensures
        crate::local_datetime::spec_parse_local_datetime(
            spec_render_local_datetime(y, m, d, h, mi, sec, ms),
        ) == Some(((y, m, d), (h, mi, sec, ms))),
{
    let rd = spec_render_date(y, m, d);
    let rt = spec_render_time(h, mi, sec, ms);
    let s = spec_render_local_datetime(y, m, d, h, mi, sec, ms);
    let b = rd.len() as int;
    assert(s.len() == b + 1 + rt.len());
    assert(s.subrange(0, b) =~= rd);
    assert(s[b] == 'T');
    assert(!is_ascii_digit_char('T')) by {
        assert('T' as u32 == 84);
    }
    lemma_date_component_at(s, 0, y, m, d);
    assert(s.subrange(b + 1, s.len() as int) =~= rt);
    assert(crate::time::count_char(s, '.') < 2) by {
        lemma_render_date_dots(y, m, d);
        lemma_render_time_dots(h, mi, sec, ms);
        assert(crate::time::count_char(seq!['T'], '.') == 0) by {
            assert(seq!['T'].drop_last() =~= Seq::<char>::empty());
            assert(crate::time::count_char(Seq::<char>::empty(), '.') == 0);
            assert(seq!['T'].last() == 'T');
        }
        lemma_count_char_concat(rd, seq!['T'], '.');
        lemma_count_char_concat(rd + seq!['T'], rt, '.');
        assert(s =~= (rd + seq!['T']) + rt);
    }
    lemma_time_component_at(s, b + 1, h, mi, sec, ms);
}

/// The canonical spelling of a date holds no dot.
pub proof fn lemma_render_date_dots(y: int, m: int, d: int)
    requires
        0 <= y,
        0 <= m,
        0 <= d,
    ensures
        crate::time::count_char(spec_render_date(y, m, d), '.') == 0,
{
    lemma_pad_digits(y, 4);
    lemma_pad_digits(m, 2);
    lemma_pad_digits(d, 2);
    lemma_count_dots_of_digits(pad_digits(y, 4));
    lemma_count_dots_of_digits(pad_digits(m, 2));
    lemma_count_dots_of_digits(pad_digits(d, 2));
    assert(crate::time::count_char(seq!['-'], '.') == 0) by {
        assert(seq!['-'].drop_last() =~= Seq::<char>::empty());
        assert(crate::time::count_char(Seq::<char>::empty(), '.') == 0);
        assert(seq!['-'].last() == '-');
    }
    lemma_count_char_concat(pad_digits(y, 4), seq!['-'], '.');
    lemma_count_char_concat(pad_digits(y, 4) + seq!['-'], pad_digits(m, 2), '.');
    lemma_count_char_concat(pad_digits(y, 4) + seq!['-'] + pad_digits(m, 2), seq!['-'], '.');
    lemma_count_char_concat(
        pad_digits(y, 4) + seq!['-'] + pad_digits(m, 2) + seq!['-'],
        pad_digits(d, 2),
        '.',
    );
}

/// The canonical spelling of a global date-time: the date, the letter `T`,
/// the time, and the letter `Z` for the zero offset.
pub open spec fn spec_render_global_datetime(
    y: int,
    m: int,
    d: int,
    h: int,
    mi: int,
    sec: int,
    ms: int,
) -> Seq<char> {
    spec_render_date(y, m, d) + seq!['T'] + spec_render_time(h, mi, sec, ms) + seq!['Z']
}

/// Parsing the canonical spelling of any valid global date-time yields
/// exactly that date and time: the zero offset changes nothing.
pub proof fn lemma_parse_global_datetime_roundtrip(
    y: int,
    m: int,
    d: int,
    h: int,
    mi: int,
    sec: int,
    ms: int,
)
    requires
        1 <= y <= i32::MAX,
        1 <= m <= 12,
        1 <= d <= crate::calendar::spec_max_days_in_month(m, y),
        0 <= h <= 23,
        0 <= mi <= 59,
        0 <= sec <= 59,
        0 <= ms <= 999,
    ensures
        crate::global_datetime::spec_parse_global_datetime(
            spec_render_global_datetime(y, m, d, h, mi, sec, ms),
        ) == Some(((y, m, d), (h, mi, sec, ms))),
{
    let rd = spec_render_date(y, m, d);
    let rt = spec_render_time(h, mi, sec, ms);
    let s = spec_render_global_datetime(y, m, d, h, mi, sec, ms);
    let b = rd.len() as int;
    let te = b + 1 + rt.len() as int;
    assert(s.len() == te + 1);
    assert(s.subrange(0, b) =~= rd);
    assert(s[b] == 'T');
    assert(!is_ascii_digit_char('T')) by {
        assert('T' as u32 == 84);
    }
    lemma_date_component_at(s, 0, y, m, d);
    assert(s.subrange(b + 1, b + 1 + rt.len() as int) =~= rt);
    assert(s[te] == 'Z');
    assert(!is_ascii_digit_char('Z') && 'Z' != ':' && 'Z' != '.') by {
        assert('Z' as u32 == 90);
    }
    assert(crate::time::count_char(s, '.') < 2) by {
        lemma_render_date_dots(y, m, d);
        lemma_render_time_dots(h, mi, sec, ms);
        assert(crate::time::count_char(seq!['T'], '.') == 0) by {
            assert(seq!['T'].drop_last() =~= Seq::<char>::empty());
            assert(crate::time::count_char(Seq::<char>::empty(), '.') == 0);
            assert(seq!['T'].last() == 'T');
        }
        assert(crate::time::count_char(seq!['Z'], '.') == 0) by {
            assert(seq!['Z'].drop_last() =~= Seq::<char>::empty());
            assert(crate::time::count_char(Seq::<char>::empty(), '.') == 0);
            assert(seq!['Z'].last() == 'Z');
        }
        lemma_count_char_concat(rd, seq!['T'], '.');
        lemma_count_char_concat(rd + seq!['T'], rt, '.');
        lemma_count_char_concat(rd + seq!['T'] + rt, seq!['Z'], '.');
        assert(s =~= ((rd + seq!['T']) + rt) + seq!['Z']);
    }
    lemma_time_component_at(s, b + 1, h, mi, sec, ms);
    assert(s.subrange(te, s.len() as int) =~= seq!['Z']);
    lemma_timezone_offset_component_at(s, te, 0, 0);
    lemma_apply_zero_offset(y, m, d, h, mi);
}

} // verus!

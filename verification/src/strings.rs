//! String utilities of the WHATWG Infra standard: collecting and skipping
//! code points under a predicate, newline normalization and stripping, and
//! ASCII-whitespace trimming and collapsing.

use vstd::prelude::*;

verus! {

/// ASCII whitespace: space, tab, line feed, form feed or carriage return.
pub open spec fn spec_is_ascii_whitespace(c: char) -> bool {
    c == ' ' || c == '\u{0009}' || c == '\u{000A}' || c == '\u{000C}' || c == '\u{000D}'
}

/// Reports whether a character is ASCII whitespace.
fn is_ascii_whitespace_char(c: char) -> (r: bool)
    ensures
        r == spec_is_ascii_whitespace(c),
{
    c == ' ' || c == '\u{0009}' || c == '\u{000A}' || c == '\u{000C}' || c == '\u{000D}'
}

/// Relies on `String::push`: appends one character at the end.
#[verifier::external_body]
fn push_char(s: &mut String, c: char)
    ensures
        final(s)@ == old(s)@.push(c),
{
    s.push(c)
}

/// The position at which the maximal run of ASCII whitespace starting at
/// `i` ends; `i` itself when `i` is outside the string or no whitespace
/// stands there.
pub open spec fn ws_run_end(s: Seq<char>, i: int) -> int
    decreases s.len() - i,
{
    if 0 <= i < s.len() && spec_is_ascii_whitespace(s[i]) {
        ws_run_end(s, i + 1)
    } else {
        i
    }
}

/// A whitespace run that starts inside the string ends inside it, every
/// character of the run is whitespace, and the character after the run, if
/// any, is not.
pub proof fn lemma_ws_run_end_bounds(s: Seq<char>, i: int)
    requires
        0 <= i <= s.len(),
    ensures
        i <= ws_run_end(s, i) <= s.len(),
        forall|j: int| i <= j < ws_run_end(s, i) ==> spec_is_ascii_whitespace(s[j]),
        ws_run_end(s, i) < s.len() ==> !spec_is_ascii_whitespace(s[ws_run_end(s, i)]),
    decreases s.len() - i,
{
    if i < s.len() && spec_is_ascii_whitespace(s[i]) {
        lemma_ws_run_end_bounds(s, i + 1);
    }
}

/// The position before which the maximal run of trailing ASCII whitespace
/// starts: the index just after the last character that is not whitespace,
/// 0 when every character is.
pub open spec fn ws_suffix_start(s: Seq<char>) -> int
    decreases s.len(),
{
    if s.len() > 0 && spec_is_ascii_whitespace(s.last()) {
        ws_suffix_start(s.drop_last())
    } else {
        s.len() as int
    }
}

/// The trailing-whitespace boundary lies inside the string, everything at
/// or after it is whitespace, and the character before it, if any, is not.
pub proof fn lemma_ws_suffix_start_bounds(s: Seq<char>)
    ensures
        0 <= ws_suffix_start(s) <= s.len(),
        forall|j: int| ws_suffix_start(s) <= j < s.len() ==> spec_is_ascii_whitespace(s[j]),
        ws_suffix_start(s) > 0 ==> !spec_is_ascii_whitespace(s[ws_suffix_start(s) - 1]),
    decreases s.len(),
{
    if s.len() > 0 && spec_is_ascii_whitespace(s.last()) {
        lemma_ws_suffix_start_bounds(s.drop_last());
        assert(forall|j: int| 0 <= j < s.len() - 1 ==> s.drop_last()[j] == s[j]);
    }
}

/// Skips code points while the predicate holds of them, advancing the scan
/// position to the first code point of which the predicate does not hold,
/// or to the end of the string. A position beyond the string is left as it
/// stands.
pub fn skip_codepoints<P: Fn(char) -> bool>(s: &str, position: &mut usize, predicate: P)
    requires
        forall|c: char| #[trigger] call_requires(predicate, (c,)),
    ensures
        *old(position) <= *final(position),
        *old(position) > s@.len() ==> *final(position) == *old(position),
        *old(position) <= s@.len() ==> *final(position) <= s@.len() && (forall|i: int|
            *old(position) <= i < *final(position) ==> call_ensures(predicate, (s@[i],), true)) && (
        *final(position) < s@.len() ==> call_ensures(
            predicate,
            (s@[*final(position) as int],),
            false,
        )),
{
    let n = s.unicode_len();
    if *position > n {
        return ;
    }
    let ghost start = *position as int;
    loop
        invariant
            0 <= start <= *position <= n,
            n == s@.len(),
            forall|c: char| #[trigger] call_requires(predicate, (c,)),
            forall|i: int| start <= i < *position ==> call_ensures(predicate, (s@[i],), true),
        ensures
            start <= *position <= n,
            forall|i: int| start <= i < *position ==> call_ensures(predicate, (s@[i],), true),
            *position < n ==> call_ensures(predicate, (s@[*position as int],), false),
        decreases n - *position,
    {
        if *position >= n {
            break;
        }
        let c = s.get_char(*position);
        if !predicate(c) {
            break;
        }
        *position += 1;
    }
}

/// Collects the code points of which the predicate holds, from the scan
/// position to the first of which it does not, advancing the position past
/// them and returning them as a string. A position beyond the string
/// collects nothing and is left as it stands.
pub fn collect_codepoints<P: Fn(char) -> bool>(s: &str, position: &mut usize, predicate: P) -> (r:
    String)
    requires
        forall|c: char| #[trigger] call_requires(predicate, (c,)),
    ensures
        *old(position) <= *final(position),
        *old(position) > s@.len() ==> *final(position) == *old(position) && r@ == Seq::<
            char,
        >::empty(),
        *old(position) <= s@.len() ==> *final(position) <= s@.len() && r@ == s@.subrange(
            *old(position) as int,
            *final(position) as int,
        ) && (forall|i: int|
            *old(position) <= i < *final(position) ==> call_ensures(predicate, (s@[i],), true)) && (
        *final(position) < s@.len() ==> call_ensures(
            predicate,
            (s@[*final(position) as int],),
            false,
        )),
{
    let n = s.unicode_len();
    if *position > n {
        return String::new();
    }
    let start = *position;
    skip_codepoints(s, position, predicate);
    s.substring_char(start, *position).to_owned()
}

/// Skips ASCII whitespace, advancing the scan position to the first
/// character that is not ASCII whitespace, or to the end of the string. A
/// position beyond the string is left as it stands.
pub fn skip_ascii_whitespace(s: &str, position: &mut usize)
    ensures
        *old(position) <= *final(position),
        *old(position) > s@.len() ==> *final(position) == *old(position),
        *old(position) <= s@.len() ==> *final(position) == ws_run_end(
            s@,
            *old(position) as int,
        ),
{
    let n = s.unicode_len();
    if *position > n {
        return ;
    }
    let ghost start = *position as int;
    loop
        invariant
            0 <= start <= *position <= n,
            n == s@.len(),
            ws_run_end(s@, *position as int) == ws_run_end(s@, start),
        ensures
            start <= *position <= n,
            *position == ws_run_end(s@, start),
        decreases n - *position,
    {
        if *position >= n {
            break;
        }
        if !is_ascii_whitespace_char(s.get_char(*position)) {
            break;
        }
        *position += 1;
    }
}

/// A string with every CR LF pair replaced by a single LF, and every
/// remaining CR replaced by an LF.
pub open spec fn spec_normalize_newlines(s: Seq<char>) -> Seq<char>
    decreases s.len(),
{
    if s.len() == 0 {
        Seq::empty()
    } else if s[0] == '\u{000D}' && s.len() >= 2 && s[1] == '\u{000A}' {
        seq!['\u{000A}'] + spec_normalize_newlines(s.subrange(2, s.len() as int))
    } else if s[0] == '\u{000D}' {
        seq!['\u{000A}'] + spec_normalize_newlines(s.subrange(1, s.len() as int))
    } else {
        seq![s[0]] + spec_normalize_newlines(s.subrange(1, s.len() as int))
    }
}

/// Replaces every CR LF pair with a single LF, and every remaining CR with
/// an LF.
pub fn normalize_newlines(s: &str) -> (r: String)
    ensures
        r@ == spec_normalize_newlines(s@),
{
    let n = s.unicode_len();
    let mut result = String::new();
    let mut i: usize = 0;
    proof {
        assert(s@.subrange(0, n as int) =~= s@);
        assert(Seq::<char>::empty() + spec_normalize_newlines(s@) =~= spec_normalize_newlines(s@));
    }
    loop
        invariant
            0 <= i <= n,
            n == s@.len(),
            spec_normalize_newlines(s@) == result@ + spec_normalize_newlines(
                s@.subrange(i as int, n as int),
            ),
        ensures
            i == n,
            spec_normalize_newlines(s@) == result@ + spec_normalize_newlines(
                s@.subrange(i as int, n as int),
            ),
        decreases n - i,
    {
        if i >= n {
            break;
        }
        let ghost suffix = s@.subrange(i as int, n as int);
        let c = s.get_char(i);
        proof {
            assert(suffix[0] == s@[i as int]);
        }
        if c == '\u{000D}' && i + 1 < n && s.get_char(i + 1) == '\u{000A}' {
            proof {
                assert(suffix[1] == s@[i as int + 1]);
                assert(suffix.subrange(2, suffix.len() as int) =~= s@.subrange(
                    i as int + 2,
                    n as int,
                ));
                assert(result@ + (seq!['\u{000A}'] + spec_normalize_newlines(
                    s@.subrange(i as int + 2, n as int),
                )) =~= result@.push('\u{000A}') + spec_normalize_newlines(
                    s@.subrange(i as int + 2, n as int),
                ));
            }
            push_char(&mut result, '\u{000A}');
            i += 2;
        } else if c == '\u{000D}' {
            proof {
                assert(suffix.subrange(1, suffix.len() as int) =~= s@.subrange(
                    i as int + 1,
                    n as int,
                ));
                assert(result@ + (seq!['\u{000A}'] + spec_normalize_newlines(
                    s@.subrange(i as int + 1, n as int),
                )) =~= result@.push('\u{000A}') + spec_normalize_newlines(
                    s@.subrange(i as int + 1, n as int),
                ));
            }
            push_char(&mut result, '\u{000A}');
            i += 1;
        } else {
            proof {
                assert(suffix.subrange(1, suffix.len() as int) =~= s@.subrange(
                    i as int + 1,
                    n as int,
                ));
                assert(result@ + (seq![s@[i as int]] + spec_normalize_newlines(
                    s@.subrange(i as int + 1, n as int),
                )) =~= result@.push(s@[i as int]) + spec_normalize_newlines(
                    s@.subrange(i as int + 1, n as int),
                ));
            }
            push_char(&mut result, c);
            i += 1;
        }
    }
    proof {
        assert(s@.subrange(n as int, n as int) =~= Seq::<char>::empty());
        assert(result@ + Seq::<char>::empty() =~= result@);
    }
    result
}

/// A string without its LF and CR characters.
pub open spec fn spec_strip_newlines(s: Seq<char>) -> Seq<char>
    decreases s.len(),
{
    if s.len() == 0 {
        Seq::empty()
    } else {
        let prefix = spec_strip_newlines(s.drop_last());
        if s.last() == '\u{000A}' || s.last() == '\u{000D}' {
            prefix
        } else {
            prefix.push(s.last())
        }
    }
}

/// Removes every LF and CR character.
pub fn strip_newlines(s: &str) -> (r: String)
    ensures
        r@ == spec_strip_newlines(s@),
{
    let n = s.unicode_len();
    let mut result = String::new();
    let mut i: usize = 0;
    while i < n
        invariant
            0 <= i <= n,
            n == s@.len(),
            result@ == spec_strip_newlines(s@.subrange(0, i as int)),
        decreases n - i,
    {
        proof {
            assert(s@.subrange(0, i as int + 1).drop_last() =~= s@.subrange(0, i as int));
            assert(s@.subrange(0, i as int + 1).last() == s@[i as int]);
        }
        let c = s.get_char(i);
        if c != '\u{000A}' && c != '\u{000D}' {
            push_char(&mut result, c);
        }
        i += 1;
    }
    proof {
        assert(s@.subrange(0, n as int) =~= s@);
    }
    result
}

/// Removes ASCII whitespace from before and after a string.
pub fn trim_ascii_whitespace(s: &str) -> (r: &str)
    ensures
        ({
            let a = ws_run_end(s@, 0);
            let b = ws_suffix_start(s@);
            if a <= b {
                r@ == s@.subrange(a, b)
            } else {
                r@ == Seq::<char>::empty()
            }
        }),
{
    let n = s.unicode_len();
    proof {
        lemma_ws_run_end_bounds(s@, 0);
        lemma_ws_suffix_start_bounds(s@);
    }
    let mut a: usize = 0;
    loop
        invariant
            0 <= a <= n,
            n == s@.len(),
            ws_run_end(s@, a as int) == ws_run_end(s@, 0),
        ensures
            0 <= a <= n,
            a as int == ws_run_end(s@, 0),
        decreases n - a,
    {
        if a >= n {
            break;
        }
        if !is_ascii_whitespace_char(s.get_char(a)) {
            break;
        }
        a += 1;
    }
    let mut b: usize = n;
    proof {
        assert(s@.subrange(0, n as int) =~= s@);
    }
    loop
        invariant
            0 <= b <= n,
            n == s@.len(),
            ws_suffix_start(s@.subrange(0, b as int)) == ws_suffix_start(s@),
        ensures
            0 <= b <= n,
            b as int == ws_suffix_start(s@),
        decreases b,
    {
        if b == 0 {
            proof {
                assert(s@.subrange(0, 0) =~= Seq::<char>::empty());
            }
            break;
        }
        let ghost cur = s@.subrange(0, b as int);
        proof {
            assert(cur.last() == s@[b as int - 1]);
            assert(cur.drop_last() =~= s@.subrange(0, b as int - 1));
        }
        if !is_ascii_whitespace_char(s.get_char(b - 1)) {
            break;
        }
        b -= 1;
    }
    if a >= b {
        let r = "";
        proof {
            reveal_strlit("");
            assert(r@ =~= Seq::<char>::empty());
            if a as int <= ws_suffix_start(s@) {
                assert(s@.subrange(a as int, ws_suffix_start(s@)) =~= Seq::<char>::empty());
            }
        }
        r
    } else {
        s.substring_char(a, b)
    }
}

/// A string with every run of ASCII whitespace replaced by a single space;
/// `prev_ws` tells whether a run is already open on the left.
pub open spec fn spec_collapse_ws(s: Seq<char>, prev_ws: bool) -> Seq<char>
    decreases s.len(),
{
    if s.len() == 0 {
        Seq::empty()
    } else if spec_is_ascii_whitespace(s[0]) {
        if prev_ws {
            spec_collapse_ws(s.subrange(1, s.len() as int), true)
        } else {
            seq![' '] + spec_collapse_ws(s.subrange(1, s.len() as int), true)
        }
    } else {
        seq![s[0]] + spec_collapse_ws(s.subrange(1, s.len() as int), false)
    }
}

/// A string without its leading and trailing ASCII whitespace.
pub open spec fn spec_trim_ws(s: Seq<char>) -> Seq<char> {
    let a = ws_run_end(s, 0);
    let b = ws_suffix_start(s);
    if a <= b {
        s.subrange(a, b)
    } else {
        Seq::empty()
    }
}

/// Removes ASCII whitespace from before and after a string and collapses
/// every inner run of it to a single space.
pub fn trim_collapse_ascii_whitespace(s: &str) -> (r: String)
    ensures
        r@ == spec_trim_ws(spec_collapse_ws(s@, false)),
{
    let n = s.unicode_len();
    let mut collapsed = String::new();
    let mut last_seen_whitespace = false;
    let mut i: usize = 0;
    proof {
        assert(s@.subrange(0, n as int) =~= s@);
        assert(Seq::<char>::empty() + spec_collapse_ws(s@, false) =~= spec_collapse_ws(s@, false));
    }
    loop
        invariant
            0 <= i <= n,
            n == s@.len(),
            spec_collapse_ws(s@, false) == collapsed@ + spec_collapse_ws(
                s@.subrange(i as int, n as int),
                last_seen_whitespace,
            ),
        ensures
            i == n,
            spec_collapse_ws(s@, false) == collapsed@ + spec_collapse_ws(
                s@.subrange(i as int, n as int),
                last_seen_whitespace,
            ),
        decreases n - i,
    {
        if i >= n {
            break;
        }
        let ghost suffix = s@.subrange(i as int, n as int);
        proof {
            assert(suffix[0] == s@[i as int]);
            assert(suffix.subrange(1, suffix.len() as int) =~= s@.subrange(i as int + 1, n as int));
        }
        let c = s.get_char(i);
        if is_ascii_whitespace_char(c) {
            if !last_seen_whitespace {
                proof {
                    assert(collapsed@ + (seq![' '] + spec_collapse_ws(
                        s@.subrange(i as int + 1, n as int),
                        true,
                    )) =~= collapsed@.push(' ') + spec_collapse_ws(
                        s@.subrange(i as int + 1, n as int),
                        true,
                    ));
                }
                push_char(&mut collapsed, ' ');
                last_seen_whitespace = true;
            }
        } else {
            proof {
                assert(collapsed@ + (seq![s@[i as int]] + spec_collapse_ws(
                    s@.subrange(i as int + 1, n as int),
                    false,
                )) =~= collapsed@.push(s@[i as int]) + spec_collapse_ws(
                    s@.subrange(i as int + 1, n as int),
                    false,
                ));
            }
            push_char(&mut collapsed, c);
            last_seen_whitespace = false;
        }
        i += 1;
    }
    proof {
        assert(s@.subrange(n as int, n as int) =~= Seq::<char>::empty());
        assert(collapsed@ + Seq::<char>::empty() =~= collapsed@);
    }
    trim_ascii_whitespace(collapsed.as_str()).to_owned()
}

/// String utilities of the WHATWG Infra standard, as methods carrying the
/// same contracts as the free functions.
pub trait InfraStr: View<V = Seq<char>> {
    fn normalize_newlines(&self) -> (r: String)
        ensures
            r@ == spec_normalize_newlines(self@),
    ;

    fn strip_newlines(&self) -> (r: String)
        ensures
            r@ == spec_strip_newlines(self@),
    ;

    fn trim_ascii_whitespace(&self) -> (r: &str)
        ensures
            r@ == spec_trim_ws(self@),
    ;

    fn trim_collapse_ascii_whitespace(&self) -> (r: String)
        ensures
            r@ == spec_trim_ws(spec_collapse_ws(self@, false)),
    ;

    fn collect_codepoints<P>(&self, position: &mut usize, predicate: P) -> (r: String) where
        P: Fn(char) -> bool,
        requires
            forall|c: char| #[trigger] call_requires(predicate, (c,)),
        ensures
            *old(position) <= *final(position),
            *old(position) > self@.len() ==> *final(position) == *old(position) && r@ == Seq::<
                char,
            >::empty(),
            *old(position) <= self@.len() ==> *final(position) <= self@.len() && r@
                == self@.subrange(*old(position) as int, *final(position) as int) && (forall|i: int|
                *old(position) <= i < *final(position) ==> call_ensures(
                    predicate,
                    (self@[i],),
                    true,
                )) && (*final(position) < self@.len() ==> call_ensures(
                predicate,
                (self@[*final(position) as int],),
                false,
            )),
    ;

    fn skip_codepoints<P>(&self, position: &mut usize, predicate: P) where P: Fn(char) -> bool,
        requires
            forall|c: char| #[trigger] call_requires(predicate, (c,)),
        ensures
            *old(position) <= *final(position),
            *old(position) > self@.len() ==> *final(position) == *old(position),
            *old(position) <= self@.len() ==> *final(position) <= self@.len() && (forall|i: int|
                *old(position) <= i < *final(position) ==> call_ensures(
                    predicate,
                    (self@[i],),
                    true,
                )) && (*final(position) < self@.len() ==> call_ensures(
                predicate,
                (self@[*final(position) as int],),
                false,
            )),
    ;

    fn skip_ascii_whitespace(&self, position: &mut usize)
        ensures
            *old(position) <= *final(position),
            *old(position) > self@.len() ==> *final(position) == *old(position),
            *old(position) <= self@.len() ==> *final(position) == ws_run_end(
                self@,
                *old(position) as int,
            ),
    ;
}

impl InfraStr for str {
    fn normalize_newlines(&self) -> String {
        normalize_newlines(self)
    }

    fn strip_newlines(&self) -> String {
        strip_newlines(self)
    }

    fn trim_ascii_whitespace(&self) -> &str {
        trim_ascii_whitespace(self)
    }

    fn trim_collapse_ascii_whitespace(&self) -> String {
        trim_collapse_ascii_whitespace(self)
    }

    fn collect_codepoints<P>(&self, position: &mut usize, predicate: P) -> String where P: Fn(
        char,
    ) -> bool {
        collect_codepoints(self, position, predicate)
    }

    fn skip_codepoints<P>(&self, position: &mut usize, predicate: P) where P: Fn(char) -> bool {
        skip_codepoints(self, position, predicate)
    }

    fn skip_ascii_whitespace(&self, position: &mut usize) {
        skip_ascii_whitespace(self, position)
    }
}

impl InfraStr for String {
    fn normalize_newlines(&self) -> String {
        normalize_newlines(self.as_str())
    }

    fn strip_newlines(&self) -> String {
        strip_newlines(self.as_str())
    }

    fn trim_ascii_whitespace(&self) -> &str {
        trim_ascii_whitespace(self.as_str())
    }

    fn trim_collapse_ascii_whitespace(&self) -> String {
        trim_collapse_ascii_whitespace(self.as_str())
    }

    fn collect_codepoints<P>(&self, position: &mut usize, predicate: P) -> String where P: Fn(
        char,
    ) -> bool {
        collect_codepoints(self.as_str(), position, predicate)
    }

    fn skip_codepoints<P>(&self, position: &mut usize, predicate: P) where P: Fn(char) -> bool {
        skip_codepoints(self.as_str(), position, predicate)
    }

    fn skip_ascii_whitespace(&self, position: &mut usize) {
        skip_ascii_whitespace(self.as_str(), position)
    }
}

} // verus!

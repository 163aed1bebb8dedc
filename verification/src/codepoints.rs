//! Predicates on Unicode code points and UTF-16 code units: noncharacters,
//! C0 controls, ASCII tab or newline, and surrogates.

use vstd::prelude::*;

verus! {

/// A noncharacter: a code point between U+FDD0 and U+FDEF, or one whose
/// low sixteen bits are FFFE or FFFF, in any of the seventeen planes.
pub open spec fn spec_is_noncharacter(c: char) -> bool {
    let u = c as u32;
    (0xFDD0 <= u <= 0xFDEF) || u % 0x10000 == 0xFFFE || u % 0x10000 == 0xFFFF
}

/// A C0 control: a code point between U+0000 and U+001F.
pub open spec fn spec_is_c0_control(c: char) -> bool {
    c as u32 <= 0x1F
}

/// A C0 control or U+0020 SPACE.
pub open spec fn spec_is_c0_control_space(c: char) -> bool {
    c as u32 <= 0x20
}

/// An ASCII tab or newline: U+0009 TAB, U+000A LINE FEED or U+000D CARRIAGE
/// RETURN.
pub open spec fn spec_is_ascii_tab_newline(c: char) -> bool {
    c == '\u{0009}' || c == '\u{000A}' || c == '\u{000D}'
}

/// Reports whether a code point is a noncharacter: in the range U+FDD0 to
/// U+FDEF, or ending in FFFE or FFFF in any plane.
pub fn is_noncharacter(c: char) -> (r: bool)
    ensures
        r == spec_is_noncharacter(c),
{
    let u = c as u32;
    (0xFDD0 <= u && u <= 0xFDEF) || u % 0x10000 == 0xFFFE || u % 0x10000 == 0xFFFF
}

/// Reports whether a code point is a C0 control, between U+0000 NULL and
/// U+001F INFORMATION SEPARATOR ONE.
pub fn is_c0_control(c: char) -> (r: bool)
    ensures
        r == spec_is_c0_control(c),
{
    c as u32 <= 0x1F
}

/// Reports whether a code point is a C0 control or U+0020 SPACE.
pub fn is_c0_control_space(c: char) -> (r: bool)
    ensures
        r == spec_is_c0_control_space(c),
{
    c as u32 <= 0x20
}

/// Reports whether a code point is U+0009 TAB, U+000A LINE FEED or U+000D
/// CARRIAGE RETURN.
pub fn is_ascii_tab_newline(c: char) -> (r: bool)
    ensures
        r == spec_is_ascii_tab_newline(c),
{
    c == '\u{0009}' || c == '\u{000A}' || c == '\u{000D}'
}

/// A UTF-16 surrogate: a code unit between D800 and DFFF.
pub open spec fn spec_is_surrogate_utf16(c: u16) -> bool {
    0xD800 <= c <= 0xDFFF
}

/// A UTF-16 leading surrogate: a code unit between D800 and DBFF.
pub open spec fn spec_is_leading_surrogate_utf16(c: u16) -> bool {
    0xD800 <= c <= 0xDBFF
}

/// A UTF-16 trailing surrogate: a code unit between DC00 and DFFF.
pub open spec fn spec_is_trailing_surrogate_utf16(c: u16) -> bool {
    0xDC00 <= c <= 0xDFFF
}

/// Reports whether a UTF-16 code unit is a surrogate, between D800 and
/// DFFF.
pub fn is_surrogate_utf16(c: u16) -> (r: bool)
    ensures
        r == spec_is_surrogate_utf16(c),
{
    0xD800 <= c && c <= 0xDFFF
}

/// Reports whether a UTF-16 code unit is a leading surrogate, between D800
/// and DBFF.
pub fn is_leading_surrogate_utf16(c: u16) -> (r: bool)
    ensures
        r == spec_is_leading_surrogate_utf16(c),
{
    0xD800 <= c && c <= 0xDBFF
}

/// Reports whether a UTF-16 code unit is a trailing surrogate, between DC00
/// and DFFF.
pub fn is_trailing_surrogate_utf16(c: u16) -> (r: bool)
    ensures
        r == spec_is_trailing_surrogate_utf16(c),
{
    0xDC00 <= c && c <= 0xDFFF
}

/// Predicates of the WHATWG Infra standard on Unicode code points.
pub trait InfraScalarValue {
    fn is_ascii_tab_newline(self) -> bool;

    fn is_c0_control(self) -> bool;

    fn is_c0_control_space(self) -> bool;

    fn is_noncharacter(self) -> bool;
}

impl InfraScalarValue for char {
    fn is_ascii_tab_newline(self) -> bool {
        is_ascii_tab_newline(self)
    }

    fn is_c0_control(self) -> bool {
        is_c0_control(self)
    }

    fn is_c0_control_space(self) -> bool {
        is_c0_control_space(self)
    }

    fn is_noncharacter(self) -> bool {
        is_noncharacter(self)
    }
}

/// Predicates of the WHATWG Infra standard on UTF-16 code units.
pub trait InfraUtf16Surrogate {
    /// The smallest code unit that is a leading surrogate.
    const LEADING_SURROGATE_MIN: u16;

    /// The largest code unit that is a leading surrogate.
    const LEADING_SURROGATE_MAX: u16;

    /// The smallest code unit that is a trailing surrogate.
    const TRAILING_SURROGATE_MIN: u16;

    /// The largest code unit that is a trailing surrogate.
    const TRAILING_SURROGATE_MAX: u16;

    /// The smallest code unit that is a surrogate.
    const SURROGATE_MIN: u16;

    /// The largest code unit that is a surrogate.
    const SURROGATE_MAX: u16;

    fn is_surrogate_utf16(self) -> bool;

    fn is_leading_surrogate_utf16(self) -> bool;

    fn is_trailing_surrogate_utf16(self) -> bool;
}

impl InfraUtf16Surrogate for u16 {
    const LEADING_SURROGATE_MIN: u16 = 0xD800u16;

    const LEADING_SURROGATE_MAX: u16 = 0xDBFFu16;

    const TRAILING_SURROGATE_MIN: u16 = 0xDC00u16;

    const TRAILING_SURROGATE_MAX: u16 = 0xDFFFu16;

    const SURROGATE_MIN: u16 = 0xD800u16;

    const SURROGATE_MAX: u16 = 0xDFFFu16;

    fn is_surrogate_utf16(self) -> bool {
        is_surrogate_utf16(self)
    }

    fn is_leading_surrogate_utf16(self) -> bool {
        is_leading_surrogate_utf16(self)
    }

    fn is_trailing_surrogate_utf16(self) -> bool {
        is_trailing_surrogate_utf16(self)
    }
}

} // verus!

use whatwg_datetime::{
    is_ascii_tab_newline, is_c0_control, is_c0_control_space, is_leading_surrogate_utf16,
    is_noncharacter, is_surrogate_utf16, is_trailing_surrogate_utf16, InfraScalarValue,
    InfraUtf16Surrogate,
};

#[test]
fn test_is_noncharacter() {
    assert!(is_noncharacter('\u{FDD0}'));
    assert!(is_noncharacter('\u{FDD1}'));
    assert!(is_noncharacter('\u{FFFE}'));
    assert!('\u{10FFFF}'.is_noncharacter());
}

#[test]
fn test_is_c0_control() {
    assert!('\u{0000}'.is_c0_control());
    assert!('\u{001E}'.is_c0_control());
    assert!(is_c0_control('\u{001F}'));
}

#[test]
fn test_is_c0_control_space() {
    assert!(is_c0_control_space(' '));
    assert!('\u{0019}'.is_c0_control_space());
}

#[test]
fn test_is_ascii_tab_newline() {
    assert!(is_ascii_tab_newline('\t'));
    assert!(is_ascii_tab_newline('\r'));
    assert!('\n'.is_ascii_tab_newline());
    assert!(!is_ascii_tab_newline('a'));
}

#[test]
fn test_is_surrogate_utf16() {
    assert_eq!(is_surrogate_utf16(0xD799u16), false);
    assert_eq!(is_surrogate_utf16(0xD809u16), true);
    assert_eq!(is_surrogate_utf16(0xDB99u16), true);
    assert_eq!(is_surrogate_utf16(0xDFFFu16), true);
    assert_eq!(0xE000u16.is_surrogate_utf16(), false);
}

#[test]
fn test_is_leading_surrogate_utf16() {
    assert_eq!(is_leading_surrogate_utf16(0xD799u16), false);
    assert_eq!(is_leading_surrogate_utf16(0xD800u16), true);
    assert_eq!(is_leading_surrogate_utf16(0xDBFFu16), true);
    assert_eq!(0xDC00u16.is_leading_surrogate_utf16(), false);
}

#[test]
fn test_is_trailing_surrogate_utf16() {
    assert_eq!(is_trailing_surrogate_utf16(0xDB99u16), false);
    assert_eq!(is_trailing_surrogate_utf16(0xDC00u16), true);
    assert_eq!(is_trailing_surrogate_utf16(0xDFFFu16), true);
    assert_eq!(0xE000u16.is_trailing_surrogate_utf16(), false);
}

use whatwg_datetime::{collect_codepoints, InfraStr};

#[test]
fn test_normalize_newlines() {
    assert_eq!(
        "\ralice\r\n\r\nbob\r".normalize_newlines(),
        String::from("\nalice\n\nbob\n")
    );
}

#[test]
fn test_strip_newlines_empty() {
    assert_eq!("\r\r\n\n\r\n".strip_newlines(), String::from(""));
}

#[test]
fn test_strip_newlines_empty2() {
    assert_eq!("".strip_newlines(), String::new());
}

#[test]
fn test_strip_newlines_strings1() {
    assert_eq!("Alice\n\rBob".strip_newlines(), String::from("AliceBob"));
}

#[test]
fn test_trim_ascii_whitespace_empty() {
    assert_eq!("     ".trim_ascii_whitespace(), String::from(""));
}

#[test]
fn test_trim_ascii_whitespace_strings1() {
    assert_eq!(
        "  cats and dogs  ".trim_ascii_whitespace(),
        String::from("cats and dogs")
    );
}

#[test]
fn test_trim_collapse_ascii_whitespace() {
    assert_eq!(
        "\r  \n  cat dog  hamster".trim_collapse_ascii_whitespace(),
        String::from("cat dog hamster")
    );
}

#[test]
fn test_collect_codepoints_empty() {
    let mut position = 0usize;
    let collected = "".collect_codepoints(&mut position, |c| c.is_ascii_whitespace());

    assert_eq!(collected, String::new());
}

#[test]
fn test_collect_codepoints_high_position() {
    let mut position = 15usize;
    let collected = "alice".collect_codepoints(&mut position, |c| c.is_alphabetic());

    assert_eq!(collected, String::new());
}

#[test]
fn test_collect_codepoints_string2() {
    let test = "test!!!!!";
    let mut position = 0usize;
    let collected = test.collect_codepoints(&mut position, |c| c.is_ascii_alphabetic());
    assert_eq!(collected, String::from("test"));
    assert_eq!(position, 4);
}

#[test]
fn test_collect_codepoints_either() {
    let value = "Apple    Banana    Orange";
    let mut position = 0usize;
    let collected = collect_codepoints(value, &mut position, |c| {
        c.is_alphabetic() || c.is_whitespace()
    });

    assert_eq!(collected, String::from("Apple    Banana    Orange"));
}

#[test]
fn skip_codepoints() {
    let s = "1234test";
    let mut position = 0usize;

    s.skip_codepoints(&mut position, |c| c.is_ascii_digit());

    assert_eq!(position, 4);
    assert_eq!(&s[position..], "test");
}

#[test]
fn skip_codepoints_no_matches_early_exit() {
    let s = "1234test";
    let mut position = 0usize;
    s.skip_codepoints(&mut position, |c| c.is_ascii_alphabetic());

    assert_eq!(position, 0);
    assert_eq!(&s[position..], "1234test");
}

#[test]
fn skip_codepoints_match_until_end() {
    let s = "123456789";
    let mut position = 0usize;

    s.skip_codepoints(&mut position, |c| c.is_ascii_digit());

    assert_eq!(position, 9);
    assert_eq!(&s[position..], "");
}

#[test]
fn skip_codepoints_empty_str() {
    let s = "";
    let mut position = 0usize;

    s.skip_codepoints(&mut position, |c| c.is_ascii_digit());

    assert_eq!(position, 0);
    assert_eq!(&s[position..], "");
}

#[test]
fn skip_ascii_whitespace() {
    let s = "   test";
    let mut position = 0usize;
    s.skip_ascii_whitespace(&mut position);

    assert_eq!(position, 3);
    assert_eq!(&s[position..], "test");
}

#[test]
fn impl_infrastr_for_string() {
    assert_eq!(
        String::from("\ralice\r\n\r\nbob\r").normalize_newlines(),
        String::from("\nalice\n\nbob\n")
    );
    assert_eq!(
        String::from("Alice\n\rBob").strip_newlines(),
        String::from("AliceBob")
    );
    assert_eq!(
        String::from("     ").trim_ascii_whitespace(),
        String::from("")
    );
    assert_eq!(
        String::from("\r  \n  cat dog  hamster").trim_collapse_ascii_whitespace(),
        String::from("cat dog hamster")
    );

    {
        let test = String::from("test!!!!!");
        let mut position = 0usize;
        let collected = test.collect_codepoints(&mut position, |c| c.is_ascii_alphabetic());
        assert_eq!(collected, String::from("test"));
        assert_eq!(position, 4);
    }

    {
        let s = String::from("1234test");
        let mut position = 0usize;

        s.skip_codepoints(&mut position, |c| c.is_ascii_digit());

        assert_eq!(position, 4);
        assert_eq!(&s[position..], "test");
    }

    {
        let s = String::from("   test");
        let mut position = 0usize;

        s.skip_ascii_whitespace(&mut position);

        assert_eq!(position, 3);
        assert_eq!(&s[position..], "test");
    }
}

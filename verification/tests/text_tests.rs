use baitts::blacklist::{
    from_source_text, source_kind, Blacklist, BlacklistError, BlacklistSource,
};
use baitts::text::{
    after_chars, decimal_string, find_line_feed, is_blank, is_space, lines_of, padded_string,
    starts_with, trim,
};

#[test]
fn blank_lines_hold_only_white_space() {
    assert!(is_blank(""));
    assert!(is_blank("   "));
    assert!(is_blank("\t \r"));
    assert!(is_blank("\u{3000}\u{a0}\u{2003}"));
    assert!(!is_blank(" a "));
    assert!(!is_blank("[[PAUSE:1000]]"));
    assert!(!is_blank("\u{200b}"));
}

#[test]
fn white_space_is_what_unicode_says() {
    for code in 0u32..0x11000 {
        if let Some(c) = char::from_u32(code) {
            assert_eq!(is_space(c), c.is_whitespace(), "U+{:04X}", code);
        }
    }
}

#[test]
fn decimal_notation() {
    assert_eq!(decimal_string(0), "0");
    assert_eq!(decimal_string(7), "7");
    assert_eq!(decimal_string(10), "10");
    assert_eq!(decimal_string(255), "255");
    assert_eq!(decimal_string(1234567890), "1234567890");
    assert_eq!(decimal_string(u64::MAX), "18446744073709551615");
    assert_eq!(padded_string(0), "00");
    assert_eq!(padded_string(9), "09");
    assert_eq!(padded_string(10), "10");
    assert_eq!(padded_string(123), "123");
}

#[test]
fn blacklist_removes_every_match() {
    let b = Blacklist::new("foo|ba+r".to_string()).unwrap();
    assert_eq!(b.pattern(), "foo|ba+r");
    assert_eq!(b.apply("a foo b baaar c foo"), "a  b  c ");
    assert_eq!(b.apply("nothing to see"), "nothing to see");
    assert_eq!(b.apply(""), "");
}

#[test]
fn blacklist_takes_dollar_signs_literally_in_the_text() {
    let b = Blacklist::new(r"\d+".to_string()).unwrap();
    assert_eq!(b.apply("pay $100 now"), "pay $ now");
}

#[test]
fn blacklist_pattern_must_compile() {
    assert!(matches!(Blacklist::new("foo(bar".to_string()), Err(BlacklistError::InvalidPattern)));
    assert!(matches!(Blacklist::new("[".to_string()), Err(BlacklistError::InvalidPattern)));
    assert!(Blacklist::new(String::new()).is_ok());
}

#[test]
fn trimming_removes_the_white_space_around_a_text() {
    for text in ["", " ", "a", " a", "a ", "  a b  ", "\n\ta\r\n", "\u{3000}词\u{a0}", " \t\n", "a\u{200b} "] {
        assert_eq!(trim(text), text.trim(), "{:?}", text);
    }
    assert_eq!(trim("  damn|heck \n"), "damn|heck");
    assert_eq!(trim(" \n "), "");
}

#[test]
fn prefixes() {
    assert!(starts_with("http://x", "http://"));
    assert!(starts_with("http://", "http://"));
    assert!(starts_with("abc", ""));
    assert!(!starts_with("http:/", "http://"));
    assert!(!starts_with("xhttp://", "http://"));
    assert!(!starts_with("", "a"));
    assert!(starts_with("词库.txt", "词"));
}

#[test]
fn blacklist_source_is_an_address_or_a_file() {
    assert_eq!(source_kind("http://example.net/words"), BlacklistSource::Remote);
    assert_eq!(source_kind("https://example.net/words"), BlacklistSource::Remote);
    assert_eq!(source_kind("words.txt"), BlacklistSource::Local);
    assert_eq!(source_kind("/etc/http://x"), BlacklistSource::Local);
    assert_eq!(source_kind("HTTP://example.net"), BlacklistSource::Local);
    assert_eq!(source_kind("ftp://example.net"), BlacklistSource::Local);
    assert_eq!(source_kind(""), BlacklistSource::Local);
}

#[test]
fn blacklist_pattern_is_the_trimmed_text_of_its_source() {
    let b = from_source_text("  damn|heck \n").unwrap();
    assert_eq!(b.pattern(), "damn|heck");
    assert_eq!(b.apply("oh damn it"), "oh  it");
    assert!(matches!(from_source_text(" foo(bar \n"), Err(BlacklistError::InvalidPattern)));
    assert_eq!(from_source_text("\n").unwrap().pattern(), "");
}

#[test]
fn lines_are_split_as_the_standard_library_splits_them() {
    let texts = [
        "",
        "\n",
        "\n\n",
        "a",
        "a\n",
        "a\nb",
        "a\r\nb\r\n",
        "a\rb",
        "a\r",
        "a\r\r\n",
        "\r\n",
        "\r",
        "a\n\rb",
        "第一行\n第二行\r\n\n第四行",
        "e\u{301}\n\u{1F600}\n\u{a0}\n",
        "  \n\t\n x \n",
        "one\n\n\ntwo\n\n",
    ];
    for text in texts {
        let expected: Vec<String> = text.lines().map(String::from).collect();
        assert_eq!(lines_of(text), expected, "{:?}", text);
    }
    assert_eq!(lines_of("第一行\n第二行\r\n\n第四行"), vec!["第一行", "第二行", "", "第四行"]);
}

#[test]
fn long_text_is_split_in_one_pass() {
    let mut text = String::new();
    for i in 0..20000 {
        text.push_str("第");
        text.push_str(&i.to_string());
        text.push_str("行 some words to narrate\r\n");
    }
    let lines = lines_of(&text);
    assert_eq!(lines.len(), 20000);
    assert_eq!(lines[19999], "第19999行 some words to narrate");
}

#[test]
fn first_line_feed_is_found_by_character() {
    assert_eq!(find_line_feed(""), None);
    assert_eq!(find_line_feed("abc"), None);
    assert_eq!(find_line_feed("\n"), Some(0));
    assert_eq!(find_line_feed("ab\ncd\n"), Some(2));
    assert_eq!(find_line_feed("第一行\n"), Some(3));
    assert_eq!(find_line_feed("a\rb"), None);
}

#[test]
fn rest_of_a_text_is_taken_by_character() {
    assert_eq!(after_chars("第一行\n第二行", 4), "第二行");
    assert_eq!(after_chars("abc", 0), "abc");
    assert_eq!(after_chars("abc", 3), "");
    assert_eq!(after_chars("\u{1F600}x", 1), "x");
}

use missioncenter::text::{
    after_last_char, ascii_whitespace, chars_of, contains_chars, decimal_string,
    first_ascii_word_chars, string_from_chars, sub_chars, trim_chars, unicode_whitespace,
};

fn s(v: &[char]) -> String {
    v.iter().collect()
}

#[test]
fn chars_round_trip() {
    let v = chars_of("héllo wörld");
    assert_eq!(v.len(), 11);
    assert_eq!(string_from_chars(&v), "héllo wörld");
}

#[test]
fn decimal_formats_like_to_string() {
    assert_eq!(decimal_string(0), "0");
    assert_eq!(decimal_string(7), "7");
    assert_eq!(decimal_string(1234567890), "1234567890");
    assert_eq!(decimal_string(u64::MAX), u64::MAX.to_string());
}

#[test]
fn trim_strips_unicode_whitespace_both_ends() {
    assert_eq!(s(&trim_chars(&chars_of("  \t firefox \n"))), "firefox");
    assert_eq!(s(&trim_chars(&chars_of("\u{a0}name\u{2003}"))), "name");
    assert_eq!(s(&trim_chars(&chars_of("   "))), "");
    assert_eq!(s(&trim_chars(&chars_of("a b"))), "a b");
}

#[test]
fn after_last_takes_last_component() {
    assert_eq!(s(&after_last_char(&chars_of("/usr/bin/bash"), '/')), "bash");
    assert_eq!(s(&after_last_char(&chars_of("bash"), '/')), "bash");
    assert_eq!(s(&after_last_char(&chars_of("/usr/bin/"), '/')), "");
}

#[test]
fn first_word_skips_ascii_whitespace() {
    let w = first_ascii_word_chars(&chars_of("  /usr/bin/python3 script.py")).unwrap();
    assert_eq!(s(&w), "/usr/bin/python3");
    assert!(first_ascii_word_chars(&chars_of(" \t ")).is_none());
    assert!(first_ascii_word_chars(&chars_of("")).is_none());
}

#[test]
fn contains_matches_str_contains() {
    let hay = chars_of("gnome-shell");
    assert!(contains_chars(&hay, &chars_of("shell")));
    assert!(contains_chars(&hay, &chars_of("")));
    assert!(!contains_chars(&hay, &chars_of("shells")));
    assert!(!contains_chars(&chars_of(""), &chars_of("a")));
}

#[test]
fn sub_chars_takes_range() {
    let v = chars_of("abcdef");
    assert_eq!(s(&sub_chars(&v, 1, 4)), "bcd");
    assert_eq!(s(&sub_chars(&v, 3, 3)), "");
}

#[test]
fn whitespace_classes() {
    assert!(unicode_whitespace(' '));
    assert!(unicode_whitespace('\u{3000}'));
    assert!(!unicode_whitespace('x'));
    assert!(ascii_whitespace('\n'));
    assert!(!ascii_whitespace('\u{a0}'));
    for c in ['\u{0b}', '\u{85}', '\u{2028}', 'a', '\t', '\u{1680}'] {
        assert_eq!(unicode_whitespace(c), c.is_whitespace());
        assert_eq!(ascii_whitespace(c), c.is_ascii_whitespace());
    }
}

use lisa::text::{chars_of, contains_infix, decimal_string, is_whitespace_char, last_segment, same_text, strip_whitespace};

#[test]
fn decimal_of_zero_and_others() {
    assert_eq!(decimal_string(0), "0");
    assert_eq!(decimal_string(7), "7");
    assert_eq!(decimal_string(10), "10");
    assert_eq!(decimal_string(1234), "1234");
    assert_eq!(decimal_string(u64::MAX), u64::MAX.to_string());
}

#[test]
fn whitespace_matches_std() {
    for c in ['\t', '\n', '\u{b}', '\u{c}', '\r', ' ', '\u{85}', '\u{a0}', '\u{1680}', '\u{2000}', '\u{200a}', '\u{2028}', '\u{2029}', '\u{202f}', '\u{205f}', '\u{3000}', 'a', '0', '\u{200b}', '\u{feff}', '/'] {
        assert_eq!(is_whitespace_char(c), c.is_whitespace(), "{:?}", c);
    }
}

#[test]
fn strip_whitespace_keeps_the_rest_in_order() {
    assert_eq!(strip_whitespace(" a\tb\u{3000}c \n"), "abc");
    assert_eq!(strip_whitespace(""), "");
    assert_eq!(strip_whitespace("   "), "");
}

#[test]
fn last_segment_after_the_last_slash() {
    assert_eq!(last_segment("https://host/a/b.png"), "b.png");
    assert_eq!(last_segment("plain.png"), "plain.png");
    assert_eq!(last_segment("ends/"), "");
    assert_eq!(last_segment(""), "");
}

#[test]
fn infix_search() {
    let s = chars_of("see https://x");
    assert!(contains_infix(&s, &chars_of("https")));
    assert!(!contains_infix(&s, &chars_of("http:")));
    assert!(contains_infix(&s, &chars_of("")));
    assert!(!contains_infix(&chars_of("htt"), &chars_of("https")));
}

#[test]
fn same_text_compares_characters() {
    assert!(same_text("◀", "◀"));
    assert!(!same_text("◀", "▶"));
    assert!(!same_text("ab", "abc"));
}

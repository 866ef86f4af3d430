use responses_stream::text::{
    append_lf_only, char_is_white_space, chars_of, contains, decimal_of, find_break, join,
    range_equals, range_has_prefix, same_text, string_of, trim_bounds,
};

fn trimmed(text: &str) -> String {
    let chars = chars_of(text);
    let (start, end) = trim_bounds(&chars, 0, chars.len());
    string_of(&chars, start, end)
}

#[test]
fn white_space_is_what_unicode_says() {
    for c in '\0'..=char::MAX {
        assert_eq!(char_is_white_space(c), c.is_whitespace(), "{:?}", c);
    }
}

#[test]
fn trimming_drops_white_space_at_both_ends() {
    for text in ["", " ", "a", " a ", "\t\u{3000}a b\n\u{a0}", "a\u{200b}"] {
        assert_eq!(trimmed(text), text.trim());
    }
}

#[test]
fn line_endings_become_line_feeds() {
    for text in ["", "\r", "\n", "\r\n", "a\r\nb\r\r\n\rc\n\r", "\r\n\r\n"] {
        let mut out = vec!['x'];
        append_lf_only(&mut out, text);
        let seen: String = out.into_iter().collect();
        assert_eq!(seen, format!("x{}", text.replace("\r\n", "\n")));
    }
}

#[test]
fn empty_lines_are_found_from_a_position_on() {
    let chars = chars_of("a\n\nb\n\n\n");
    assert_eq!(find_break(&chars, 0), Some(1));
    assert_eq!(find_break(&chars, 2), Some(4));
    assert_eq!(find_break(&chars, 5), Some(5));
    assert_eq!(find_break(&chars, 6), None);
    assert_eq!(find_break(&chars, 7), None);
}

#[test]
fn ranges_are_compared_by_their_text() {
    let chars = chars_of("data: x");
    assert!(range_has_prefix(&chars, 0, 7, "data: "));
    assert!(!range_has_prefix(&chars, 0, 5, "data: "));
    assert!(!range_has_prefix(&chars, 1, 7, "data: "));
    assert!(range_equals(&chars, 6, 7, "x"));
    assert!(!range_equals(&chars, 5, 7, "x"));
    assert!(range_equals(&chars, 3, 3, ""));
}

#[test]
fn texts_are_searched_and_compared() {
    assert!(contains("the outbound buffer full now", "outbound buffer full"));
    assert!(contains("abc", ""));
    assert!(contains("abc", "bc"));
    assert!(!contains("abc", "ac"));
    assert!(!contains("ab", "abc"));
    assert!(same_text("stop", "stop"));
    assert!(!same_text("stop", "Stop"));
    assert_eq!(join("a", "b"), "ab");
}

#[test]
fn numerals_are_decimal() {
    for n in [0, 7, 10, 42, 100, 999, 1_000, 65_535, usize::MAX] {
        assert_eq!(decimal_of(n), n.to_string());
    }
}

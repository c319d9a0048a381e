//! Text functions, held against those of the standard library.

use codexl::text::{
    chars_of, comes_before, joined, contains_char, contains_text, decimal, holds_text, push_text,
    split, starts_with, text_eq, text_of, to_ascii_lowercase, trim, trim_end_matches,
    trim_start_matches, white_space,
};

fn samples() -> Vec<&'static str> {
    vec![
        "",
        " ",
        "  a b  ",
        "\u{3000}text\u{a0}",
        "//a//",
        "///",
        "a,b,,c,",
        ",",
        "Wi-Fi 以太网",
        "\u{feff}bom",
        "Straße",
        "a",
        "ab",
        "b",
        "\u{10000}",
        "\u{ffff}",
        "\t\r\nx\u{85}",
    ]
}

#[test]
fn white_space_is_that_of_the_standard_library() {
    for c in '\0'..=char::MAX {
        assert_eq!(white_space(c), c.is_whitespace());
    }
}

#[test]
fn trimming_is_that_of_the_standard_library() {
    for s in samples() {
        assert_eq!(trim(s), s.trim());
        assert_eq!(trim_start_matches(s, '/'), s.trim_start_matches('/'));
        assert_eq!(trim_end_matches(s, '/'), s.trim_end_matches('/'));
    }
}

#[test]
fn searching_is_that_of_the_standard_library() {
    for s in samples() {
        for t in samples() {
            assert_eq!(contains_text(s, t), s.contains(t));
            assert_eq!(starts_with(s, t), s.starts_with(t));
            assert_eq!(text_eq(s, t), s == t);
            assert_eq!(comes_before(s, t), s < t);
            assert_eq!(joined(s, t), format!("{}{}", s, t));
        }
        assert_eq!(contains_char(s, ','), s.contains(','));
    }
}

#[test]
fn splitting_is_that_of_the_standard_library() {
    for s in samples() {
        let expected: Vec<String> = s.split(',').map(|piece| piece.to_string()).collect();
        assert_eq!(split(s, ','), expected);
    }
}

#[test]
fn small_letters_are_those_of_the_standard_library() {
    for s in samples() {
        assert_eq!(to_ascii_lowercase(s), s.to_ascii_lowercase());
    }
    assert_eq!(to_ascii_lowercase("ÄBC-Z"), "Äbc-z");
}

#[test]
fn decimal_notation_is_that_of_the_standard_library() {
    for n in [0u64, 1, 9, 10, 99, 100, 14589, 65535, u64::MAX] {
        assert_eq!(decimal(n), n.to_string());
    }
}

#[test]
fn characters_and_texts_go_both_ways() {
    let chars = chars_of("a以b");
    assert_eq!(chars, vec!['a', '以', 'b']);
    assert_eq!(text_of(&chars, 1, 3), "以b");
    assert_eq!(text_of(&chars, 1, 1), "");
}

#[test]
fn lists_of_texts_hold_what_was_pushed() {
    let mut list: Vec<String> = Vec::new();
    assert!(!holds_text(&list, "a"));
    push_text(&mut list, "a".to_string());
    push_text(&mut list, "b".to_string());
    assert!(holds_text(&list, "a"));
    assert!(holds_text(&list, "b"));
    assert!(!holds_text(&list, "A"));
}

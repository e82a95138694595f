use rust_exercises::text::{
    chars_of, i32_to_decimal, is_whitespace, same_text, split_words, trim, u64_to_decimal,
    utf8_width,
};

#[test]
fn words_split_at_any_white_space() {
    assert_eq!(split_words("  a bc\t\td\n"), vec!["a", "bc", "d"]);
    assert_eq!(split_words(""), Vec::<String>::new());
    assert_eq!(split_words(" \u{3000} "), Vec::<String>::new());
    assert_eq!(split_words("x\u{a0}y"), vec!["x", "y"]);
}

#[test]
fn words_match_std_split_whitespace() {
    for s in ["2 + 3", "  10  /  2  ", "\u{2003}a\u{85}b", "one", "\r\n"] {
        let expected: Vec<String> = s.split_whitespace().map(|w| w.to_string()).collect();
        assert_eq!(split_words(s), expected);
    }
}

#[test]
fn trim_matches_std_trim() {
    for s in ["  hi  ", "\t\n", "", "a b", "\u{3000}x\u{2028}"] {
        assert_eq!(trim(s), s.trim());
    }
}

#[test]
fn whitespace_matches_std() {
    for c in [' ', '\t', '\u{85}', '\u{a0}', '\u{200b}', 'a', '\u{3000}', '\u{180e}'] {
        assert_eq!(is_whitespace(c), c.is_whitespace());
    }
}

#[test]
fn decimal_renderings() {
    assert_eq!(u64_to_decimal(0), "0");
    assert_eq!(u64_to_decimal(1234567890), "1234567890");
    assert_eq!(u64_to_decimal(u64::MAX), u64::MAX.to_string());
    assert_eq!(i32_to_decimal(-5), "-5");
    assert_eq!(i32_to_decimal(i32::MIN), i32::MIN.to_string());
    assert_eq!(i32_to_decimal(42), "42");
}

#[test]
fn characters_and_widths() {
    assert_eq!(chars_of("аб c"), vec!['а', 'б', ' ', 'c']);
    assert_eq!(utf8_width('a'), 1);
    assert_eq!(utf8_width('я'), 2);
    assert_eq!(utf8_width('€'), 3);
    assert_eq!(utf8_width('🦀'), 4);
}

#[test]
fn text_comparison() {
    assert!(same_text("abc", "abc"));
    assert!(!same_text("abc", "abd"));
    assert!(!same_text("abc", "ab"));
}

#[test]
fn words_are_never_empty_nor_white() {
    for w in split_words(" \t a  b\u{2000}\u{2001}cd \n\n e ") {
        assert!(!w.is_empty());
        assert!(!w.chars().any(|c| c.is_whitespace()));
    }
}

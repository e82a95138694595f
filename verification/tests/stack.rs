use rust_exercises::stack::{BracketError, Bracketer, Stack};

#[test]
fn test_valid_sequences() {
    let bracketer = Bracketer::new();

    assert!(bracketer.check("()"));
    assert!(bracketer.check("()[]{}"));
    assert!(bracketer.check("([])"));
    assert!(bracketer.check("{[()]}"));
    assert!(bracketer.check("(hello {world} [test])"));
    assert!(bracketer.check("Demo. (internal {demo2} [valid])"));
}

#[test]
fn test_invalid_sequences() {
    let bracketer = Bracketer::new();

    assert!(!bracketer.check("(]"));
    assert!(!bracketer.check("([)]"));
    assert!(!bracketer.check("{"));
    assert!(!bracketer.check(")"));
    assert!(!bracketer.check("(("));
    assert!(!bracketer.check("Demo. (internal {demo2} [invalid)"));
}

#[test]
fn bracket_report_mismatch_position_and_chars() {
    let b = Bracketer::new();
    assert_eq!(
        b.check_detailed("([)]"),
        Err(BracketError::Mismatch { position: 2, found: ')', open: '[' })
    );
}

#[test]
fn bracket_report_unopened_closer() {
    let b = Bracketer::new();
    assert_eq!(b.check_detailed("ab)"), Err(BracketError::Unopened { position: 2, found: ')' }));
}

#[test]
fn bracket_report_unclosed_count() {
    let b = Bracketer::new();
    assert_eq!(b.check_detailed("(( [ x"), Err(BracketError::Unclosed { count: 3 }));
    assert_eq!(b.check_detailed("{[()]}"), Ok(()));
}

#[test]
fn bracket_report_positions_are_byte_offsets() {
    let b = Bracketer::new();
    // "привет" takes 12 bytes in UTF-8.
    assert_eq!(b.check_detailed("привет)"), Err(BracketError::Unopened { position: 12, found: ')' }));
}

#[test]
fn bracket_empty_and_plain_text_are_balanced() {
    let b = Bracketer::new();
    assert!(b.check(""));
    assert!(b.check("no brackets here"));
}

#[test]
fn bracket_concatenation_and_nesting_stay_balanced() {
    let b = Bracketer::new();
    assert!(b.check("(a)"));
    assert!(b.check("[b]"));
    assert!(b.check("(a)[b]"));
    assert!(b.check("{(a)[b]}"));
    assert!(!b.check("}(a)"));
    assert!(!b.check("((a)"));
}

#[test]
fn bracket_predicates() {
    let b = Bracketer::new();
    assert!(b.is_opening_bracket('{'));
    assert!(!b.is_opening_bracket('}'));
    assert!(b.is_closing_bracket(']'));
    assert!(!b.is_closing_bracket('a'));
    assert!(b.is_matching_pair('(', ')'));
    assert!(!b.is_matching_pair('(', ']'));
}

#[test]
fn stack_push_pop_read() {
    let mut s = Stack::new();
    assert!(s.is_empty());
    assert_eq!(s.read(), None);
    s.push_one(1);
    s.push(vec![2, 3]);
    assert_eq!(s.len(), 3);
    assert_eq!(s.read(), Some(&3));
    assert_eq!(s.pop(), Some(3));
    assert_eq!(s.pop(), Some(2));
    assert_eq!(s.pop(), Some(1));
    assert_eq!(s.pop(), None);
    assert!(s.is_empty());
}

#[test]
fn stack_with_elements_puts_last_on_top() {
    let mut s = Stack::with_elements(vec!['a', 'b']);
    assert_eq!(s.len(), 2);
    assert_eq!(s.read(), Some(&'b'));
    s.push_one('c');
    assert_eq!(s.pop(), Some('c'));
    assert_eq!(s.read(), Some(&'b'));
}

/// Balanced by deleting adjacent matching pairs until nothing is left.
fn reduces_to_empty(text: &str) -> bool {
    let mut seq: Vec<char> = text.chars().filter(|c| "()[]{}".contains(*c)).collect();
    loop {
        let pos = seq.windows(2).position(|w| {
            matches!((w[0], w[1]), ('(', ')') | ('[', ']') | ('{', '}'))
        });
        match pos {
            Some(i) => {
                seq.drain(i..i + 2);
            }
            None => return seq.is_empty(),
        }
    }
}

#[test]
fn check_agrees_with_pair_deletion() {
    let bracketer = Bracketer::new();
    let samples = [
        "", "()", "(]", "([)]", "{[()()]}", "a(b)c", "((", "))", "}{", "[({})](", "x[y{z}]w",
        "(()[]{})", "([]{)}", "{{[[(())]]}}",
    ];
    for text in samples {
        assert_eq!(bracketer.check(text), reduces_to_empty(text), "{}", text);
    }
}

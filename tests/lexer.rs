use rpn::calculator::operator_at;
use rpn::lexer::{is_space_char, parse_range};
use rpn::Operator;

fn chars(s: &str) -> Vec<char> {
    s.chars().collect()
}

#[test]
fn literals_parse_by_range() {
    let s = chars("x-125 +8 9z");
    assert_eq!(parse_range(&s, 1, 5), Some(-125));
    assert_eq!(parse_range(&s, 6, 8), Some(8));
    assert_eq!(parse_range(&s, 9, 10), Some(9));
    assert_eq!(parse_range(&s, 9, 11), None);
    assert_eq!(parse_range(&s, 1, 2), None);
    assert_eq!(parse_range(&s, 3, 3), None);
}

#[test]
fn operators_are_single_characters() {
    let s = chars("+-*/ ++ %");
    assert_eq!(operator_at(&s, 0, 1), Some(Operator::Add));
    assert_eq!(operator_at(&s, 1, 2), Some(Operator::Sub));
    assert_eq!(operator_at(&s, 2, 3), Some(Operator::Mul));
    assert_eq!(operator_at(&s, 3, 4), Some(Operator::Div));
    assert_eq!(operator_at(&s, 5, 7), None);
    assert_eq!(operator_at(&s, 8, 9), None);
}

#[test]
fn unicode_white_space_separates() {
    for c in [' ', '\t', '\n', '\r', '\u{b}', '\u{c}', '\u{85}', '\u{a0}', '\u{2003}', '\u{3000}'] {
        assert!(is_space_char(c), "{:?}", c);
        assert_eq!(is_space_char(c), c.is_whitespace());
    }
    for c in ['a', '0', '+', '\u{200b}', '_'] {
        assert!(!is_space_char(c), "{:?}", c);
    }
    for code in 0u32..0x3100 {
        if let Some(c) = char::from_u32(code) {
            assert_eq!(is_space_char(c), c.is_whitespace(), "{:?}", c);
        }
    }
}

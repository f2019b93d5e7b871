use wasm_calculator::chars::{is_digit, is_number_start, is_whitespace};
use wasm_calculator::cursor::Cursor;
use wasm_calculator::expr::{Expr, Operator, ParseError};
use wasm_calculator::parser::{
    parse_expression, parse_factor, parse_number, parse_term, skip_whitespace,
};

fn literal(text: &str) -> Expr {
    Expr::Number(text.chars().collect())
}

#[test]
fn whitespace_is_what_the_standard_library_calls_so() {
    for code in 0..=0x10ffffu32 {
        if let Some(c) = char::from_u32(code) {
            assert_eq!(is_whitespace(c), c.is_whitespace(), "U+{:04X}", code);
        }
    }
}

#[test]
fn digits_are_the_ascii_decimal_digits() {
    for code in 0..=0x10ffffu32 {
        if let Some(c) = char::from_u32(code) {
            assert_eq!(is_digit(c), c.is_digit(10), "U+{:04X}", code);
            assert_eq!(is_number_start(c), c.is_digit(10) || c == '.', "U+{:04X}", code);
        }
    }
}

#[test]
fn a_cursor_reads_character_by_character() {
    let mut cur = Cursor::new("a\u{e9}");
    assert_eq!(cur.consumed(), 0);
    assert_eq!(cur.peek(), Some('a'));
    assert_eq!(cur.consumed(), 0);
    assert_eq!(cur.advance(), Some('a'));
    assert_eq!(cur.consumed(), 1);
    assert_eq!(cur.peek(), Some('\u{e9}'));
    assert_eq!(cur.advance(), Some('\u{e9}'));
    assert_eq!(cur.consumed(), 2);
    assert_eq!(cur.peek(), None);
    assert_eq!(cur.advance(), None);
    assert_eq!(cur.consumed(), 2);
}

#[test]
fn a_cursor_over_given_characters() {
    let mut cur = Cursor::from_chars(vec!['4', '2']);
    assert_eq!(parse_number(&mut cur), Ok(literal("42")));
    assert_eq!(cur.consumed(), 2);
}

#[test]
fn skipping_stops_at_the_first_token() {
    let mut cur = Cursor::new(" \t\n 1 ");
    skip_whitespace(&mut cur);
    assert_eq!(cur.consumed(), 4);
    skip_whitespace(&mut cur);
    assert_eq!(cur.consumed(), 4);
    let mut end = Cursor::new("  ");
    skip_whitespace(&mut end);
    assert_eq!(end.consumed(), 2);
}

#[test]
fn a_number_takes_the_longest_run() {
    let mut cur = Cursor::new("  12.5+3");
    assert_eq!(parse_number(&mut cur), Ok(literal("12.5")));
    assert_eq!(cur.consumed(), 6);
    assert_eq!(cur.peek(), Some('+'));
}

#[test]
fn a_number_needs_digits() {
    let mut cur = Cursor::new("x");
    assert_eq!(parse_number(&mut cur), Err(ParseError::InvalidNumber));
    let mut empty = Cursor::new("");
    assert_eq!(parse_number(&mut empty), Err(ParseError::InvalidNumber));
    let mut points = Cursor::new("1.2.3 + 1");
    assert_eq!(parse_number(&mut points), Err(ParseError::InvalidNumber));
}

#[test]
fn a_factor_ends_behind_its_parenthesis() {
    let mut cur = Cursor::new(" ( 7 ) * 2");
    assert_eq!(parse_factor(&mut cur), Ok(literal("7")));
    assert_eq!(cur.consumed(), 6);
    let mut bare = Cursor::new("7 ) * 2");
    assert_eq!(parse_factor(&mut bare), Ok(literal("7")));
    assert_eq!(bare.consumed(), 1);
}

#[test]
fn a_term_stops_before_an_additive_operator() {
    let mut cur = Cursor::new("2 * 3 + 4");
    assert_eq!(
        parse_term(&mut cur),
        Ok(Expr::Binary(Operator::Multiply, Box::new(literal("2")), Box::new(literal("3"))))
    );
    assert_eq!(cur.consumed(), 6);
    assert_eq!(cur.peek(), Some('+'));
}

#[test]
fn an_expression_stops_at_what_cannot_continue_it() {
    let mut cur = Cursor::new("1 - 2  ) rest");
    assert_eq!(
        parse_expression(&mut cur),
        Ok(Expr::Binary(Operator::Subtract, Box::new(literal("1")), Box::new(literal("2"))))
    );
    assert_eq!(cur.consumed(), 7);
    assert_eq!(cur.peek(), Some(')'));
}

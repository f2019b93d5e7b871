use wasm_calculator::expr::{Expr, Operator, ParseError};
use wasm_calculator::parser::evaluate_expression;

fn number(text: &str) -> Expr {
    Expr::Number(text.chars().collect())
}

fn binary(op: Operator, left: Expr, right: Expr) -> Expr {
    Expr::Binary(op, Box::new(left), Box::new(right))
}

fn value(e: &Expr) -> f64 {
    match e {
        Expr::Number(text) => text.iter().collect::<String>().parse::<f64>().unwrap(),
        Expr::Binary(op, left, right) => {
            let (l, r) = (value(left), value(right));
            match op {
                Operator::Add => l + r,
                Operator::Subtract => l - r,
                Operator::Multiply => l * r,
                Operator::Divide => l / r,
            }
        }
    }
}

fn eval(text: &str) -> Result<f64, String> {
    match evaluate_expression(text) {
        Ok(e) => Ok(value(&e)),
        Err(e) => Err(e.message()),
    }
}

#[test]
fn multiplication_binds_tighter_than_addition() {
    assert_eq!(eval("2 + 3 * 4"), Ok(14.0));
    assert_eq!(
        evaluate_expression("2 + 3 * 4"),
        Ok(binary(
            Operator::Add,
            number("2"),
            binary(Operator::Multiply, number("3"), number("4"))
        ))
    );
}

#[test]
fn parentheses_override_precedence() {
    assert_eq!(eval("(2 + 3) * 4"), Ok(20.0));
    assert_eq!(
        evaluate_expression("(2 + 3) * 4"),
        Ok(binary(
            Operator::Multiply,
            binary(Operator::Add, number("2"), number("3")),
            number("4")
        ))
    );
}

#[test]
fn division_associates_to_the_left() {
    assert_eq!(eval("8 / 4 / 2"), Ok(1.0));
    assert_eq!(
        evaluate_expression("8 / 4 / 2"),
        Ok(binary(
            Operator::Divide,
            binary(Operator::Divide, number("8"), number("4")),
            number("2")
        ))
    );
}

#[test]
fn subtraction_associates_to_the_left() {
    assert_eq!(eval("10 - 3 - 2"), Ok(5.0));
    assert_eq!(
        evaluate_expression("10 - 3 - 2"),
        Ok(binary(
            Operator::Subtract,
            binary(Operator::Subtract, number("10"), number("3")),
            number("2")
        ))
    );
}

#[test]
fn mixed_levels_give_exact_values() {
    assert_eq!(eval("2 * (3 + 4) - 5 / (1 + 1)"), Ok(11.5));
    assert_eq!(eval("1.5 + 2.25"), Ok(3.75));
    assert_eq!(eval("((2))"), Ok(2.0));
    assert_eq!(eval("( 1 )"), Ok(1.0));
    assert_eq!(eval("7"), Ok(7.0));
    assert_eq!(eval("6 / 4 * 2"), Ok(3.0));
    assert_eq!(eval("1 - 2 + 3"), Ok(2.0));
}

#[test]
fn division_by_zero_is_no_error() {
    assert_eq!(eval("1 / 0"), Ok(f64::INFINITY));
    let nan = eval("0/0").unwrap();
    assert!(nan.is_nan());
}

#[test]
fn a_leading_minus_is_no_factor() {
    assert_eq!(evaluate_expression("-1/0"), Err(ParseError::InvalidFactor));
    assert_eq!(evaluate_expression("+1"), Err(ParseError::InvalidFactor));
    assert_eq!(evaluate_expression("2 * -3"), Err(ParseError::InvalidFactor));
}

#[test]
fn missing_closing_parenthesis() {
    assert_eq!(evaluate_expression("(1 + 2"), Err(ParseError::UnmatchedParenthesis));
    assert_eq!(eval("(1 + 2"), Err("Missing closing parenthesis".to_string()));
    assert_eq!(evaluate_expression("(1 + 2 3)"), Err(ParseError::UnmatchedParenthesis));
    assert_eq!(evaluate_expression("((1)"), Err(ParseError::UnmatchedParenthesis));
    assert_eq!(evaluate_expression("(1]"), Err(ParseError::UnmatchedParenthesis));
}

#[test]
fn invalid_factor() {
    assert_eq!(evaluate_expression(""), Err(ParseError::InvalidFactor));
    assert_eq!(evaluate_expression("*5"), Err(ParseError::InvalidFactor));
    assert_eq!(eval(""), Err("Invalid factor".to_string()));
    assert_eq!(eval("*5"), Err("Invalid factor".to_string()));
    assert_eq!(evaluate_expression("   "), Err(ParseError::InvalidFactor));
    assert_eq!(evaluate_expression("1 +"), Err(ParseError::InvalidFactor));
    assert_eq!(evaluate_expression("()"), Err(ParseError::InvalidFactor));
    assert_eq!(evaluate_expression("abc"), Err(ParseError::InvalidFactor));
    assert_eq!(evaluate_expression("\u{ff11}"), Err(ParseError::InvalidFactor));
}

#[test]
fn invalid_number() {
    assert_eq!(evaluate_expression("1.2.3 + 1"), Err(ParseError::InvalidNumber));
    assert_eq!(eval("1.2.3 + 1"), Err("Invalid number".to_string()));
    assert_eq!(evaluate_expression("1.2.3"), Err(ParseError::InvalidNumber));
    assert_eq!(evaluate_expression("."), Err(ParseError::InvalidNumber));
    assert_eq!(evaluate_expression(".."), Err(ParseError::InvalidNumber));
    assert_eq!(evaluate_expression("2 * (1..5)"), Err(ParseError::InvalidNumber));
}

#[test]
fn the_first_error_is_reported() {
    assert_eq!(evaluate_expression("1.2.3 + ("), Err(ParseError::InvalidNumber));
    assert_eq!(evaluate_expression("(* 1.2.3"), Err(ParseError::InvalidFactor));
    assert_eq!(evaluate_expression("(1 + 1.2.3"), Err(ParseError::InvalidNumber));
}

#[test]
fn a_point_may_lead_or_trail() {
    assert_eq!(eval("5."), Ok(5.0));
    assert_eq!(eval(".5"), Ok(0.5));
    assert_eq!(eval("007"), Ok(7.0));
    assert_eq!(evaluate_expression("5."), Ok(number("5.")));
    assert_eq!(evaluate_expression(".5 "), Ok(number(".5")));
}

#[test]
fn literals_are_those_that_convert_to_a_float() {
    let samples = [
        "0", "1", "12", "1.", ".1", "1.5", "00.500", ".", "..", "1..", "..1", "1.2.3", ".1.",
        "1.2.", "123456789012345678901234567890123456789012345678901234567890.5",
        "0.000000000000000000000000000000000000000000000000000000000000000001", "9.9.9.9",
    ];
    for s in samples {
        let read = evaluate_expression(s);
        match s.parse::<f64>() {
            Ok(v) => assert_eq!(read.map(|e| value(&e)), Ok(v), "{}", s),
            Err(_) => assert_eq!(read, Err(ParseError::InvalidNumber), "{}", s),
        }
    }
}

#[test]
fn what_follows_the_expression_is_ignored() {
    assert_eq!(eval("2 + 2 abc"), Ok(4.0));
    assert_eq!(eval("2 + 2)"), Ok(4.0));
    assert_eq!(eval("3 4"), Ok(3.0));
    assert_eq!(eval("1 $ 2"), Ok(1.0));
}

#[test]
fn whitespace_between_tokens_changes_nothing() {
    let plain = evaluate_expression("1+2*(3-4)/5");
    assert!(plain.is_ok());
    assert_eq!(evaluate_expression(" 1 +\t2 * ( 3 - 4 )\n/ 5 "), plain);
    assert_eq!(evaluate_expression("\u{a0}1\u{2003}+\u{3000}2*(3-4)/5\r\n"), plain);
    assert_eq!(eval(" 1 +\t2 * ( 3 - 4 )\n/ 5 "), Ok(0.6));
    assert_eq!(evaluate_expression("  (  1 + 2"), evaluate_expression("(1+2"));
    assert_eq!(evaluate_expression(" * 5"), evaluate_expression("*5"));
    assert_ne!(evaluate_expression("1 2"), evaluate_expression("12"));
}

#[test]
fn reading_twice_gives_the_same() {
    for s in ["2 + 3 * 4", "(1 + 2", "", "1.2.3", "0/0", "2 + 2 abc"] {
        assert_eq!(evaluate_expression(s), evaluate_expression(s));
    }
    let a = eval("1 / 3 + 0.1").unwrap();
    let b = eval("1 / 3 + 0.1").unwrap();
    assert_eq!(a.to_bits(), b.to_bits());
}

#[test]
fn each_error_has_its_message() {
    assert_eq!(ParseError::UnmatchedParenthesis.message(), "Missing closing parenthesis");
    assert_eq!(ParseError::InvalidFactor.message(), "Invalid factor");
    assert_eq!(ParseError::InvalidNumber.message(), "Invalid number");
}

#[test]
fn only_one_character_is_looked_ahead() {
    let read = evaluate_expression("2 + 2 abc");
    assert!(read.is_ok());
    assert_eq!(evaluate_expression("2 + 2 a"), read);
    assert_eq!(evaluate_expression("2 + 2 a * (1.2.3"), read);
    assert_eq!(evaluate_expression("(1 * 2) ) + .."), evaluate_expression("(1 * 2) )"));
    assert_ne!(evaluate_expression("2 + 2 * 3"), read);
}

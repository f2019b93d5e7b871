//! The expression language, as functions on a sequence of characters.
//!
//! ```text
//! expression := term   { ('+' | '-') term }
//! term       := factor { ('*' | '/') factor }
//! factor     := '(' expression ')' | number
//! number     := a maximal run of digits and points that is a decimal literal
//! ```
//!
//! Whitespace may stand before every token. Operators of one level associate
//! to the left. Reading stops at the first character that cannot continue the
//! expression; what follows it is not looked at.

use vstd::prelude::*;
use crate::chars::{is_number_char, is_whitespace_char};
use crate::expr::{ExprView, Operator, ParseError};

verus! {

/// What reading at a position gives: the expression and the number of
/// characters it took, or the error.
pub type Parsed = Result<(ExprView, nat), ParseError>;

/// The number of characters of `s` from position `p` on.
pub open spec fn remaining(s: Seq<char>, p: nat) -> nat {
    if p < s.len() {
        (s.len() - p) as nat
    } else {
        0
    }
}

/// The character at position `p`, if the text reaches that far.
pub open spec fn peek_at(s: Seq<char>, p: nat) -> Option<char> {
    if p < s.len() {
        Some(s[p as int])
    } else {
        None
    }
}

/// The length of the longest run of whitespace that starts at `p`.
pub open spec fn whitespace_run(s: Seq<char>, p: nat) -> nat
    decreases remaining(s, p),
{
    if peek_at(s, p) is Some && is_whitespace_char(peek_at(s, p)->0) {
        1 + whitespace_run(s, p + 1)
    } else {
        0
    }
}

/// The length of the longest run of digits and points that starts at `p`.
pub open spec fn number_run(s: Seq<char>, p: nat) -> nat
    decreases remaining(s, p),
{
    if peek_at(s, p) is Some && is_number_char(peek_at(s, p)->0) {
        1 + number_run(s, p + 1)
    } else {
        0
    }
}

/// How many points `t` holds.
pub open spec fn point_count(t: Seq<char>) -> nat
    decreases t.len(),
{
    if t.len() == 0 {
        0
    } else {
        point_count(t.drop_last()) + if t.last() == '.' {
            1nat
        } else {
            0nat
        }
    }
}

/// A decimal literal: digits with at most one point among them, before them
/// or after them, and at least one digit.
pub open spec fn is_decimal_literal(t: Seq<char>) -> bool {
    &&& forall|i: int| 0 <= i < t.len() ==> is_number_char(#[trigger] t[i])
    &&& point_count(t) <= 1
    &&& point_count(t) < t.len()
}

/// Every literal of `e` is a decimal literal.
pub open spec fn literals_are_decimal(e: ExprView) -> bool
    decreases e,
{
    match e {
        ExprView::Number(text) => is_decimal_literal(text),
        ExprView::Binary(_, left, right) => literals_are_decimal(*left) && literals_are_decimal(
            *right,
        ),
    }
}

/// `r`, with `n` more characters taken before it.
pub open spec fn after(n: nat, r: Parsed) -> Parsed {
    match r {
        Ok((e, m)) => Ok((e, n + m)),
        Err(e) => Err(e),
    }
}

/// The operator of the additive level that the character `c` writes, if any.
pub open spec fn additive_operator(c: Option<char>) -> Option<Operator> {
    if c == Some('+') {
        Some(Operator::Add)
    } else if c == Some('-') {
        Some(Operator::Subtract)
    } else {
        None
    }
}

/// The operator of the multiplicative level that the character `c` writes, if any.
pub open spec fn multiplicative_operator(c: Option<char>) -> Option<Operator> {
    if c == Some('*') {
        Some(Operator::Multiply)
    } else if c == Some('/') {
        Some(Operator::Divide)
    } else {
        None
    }
}

/// The operation `op` on `left` and `right`.
pub open spec fn binary(op: Operator, left: ExprView, right: ExprView) -> ExprView {
    ExprView::Binary(op, Box::new(left), Box::new(right))
}

/// A number read at `p`: whitespace, then the longest run of digits and
/// points, which has to be a decimal literal.
pub open spec fn number_at(s: Seq<char>, p: nat) -> Parsed {
    let ws = whitespace_run(s, p);
    let len = number_run(s, p + ws);
    let text = s.subrange((p + ws) as int, (p + ws + len) as int);
    if is_decimal_literal(text) {
        Ok((ExprView::Number(text), ws + len))
    } else {
        Err(ParseError::InvalidNumber)
    }
}

/// A factor read at `p`: a parenthesised expression or a number.
pub open spec fn factor_at(s: Seq<char>, p: nat) -> Parsed
    decreases remaining(s, p), 0nat,
{
    let ws = whitespace_run(s, p);
    if peek_at(s, p + ws) == Some('(') {
        match expression_at(s, p + ws + 1) {
            Ok((inner, n)) => {
                let gap = whitespace_run(s, p + ws + 1 + n);
                let close = p + ws + 1 + n + gap;
                if peek_at(s, close) == Some(')') {
                    Ok((inner, ws + 1 + n + gap + 1))
                } else {
                    Err(ParseError::UnmatchedParenthesis)
                }
            },
            Err(e) => Err(e),
        }
    } else if peek_at(s, p + ws) is Some && is_number_char(peek_at(s, p + ws)->0) {
        number_at(s, p)
    } else {
        Err(ParseError::InvalidFactor)
    }
}

/// What follows a term's first factors, which gave `left`: any number of
/// `*` or `/`, each with a factor.
pub open spec fn term_tail_at(s: Seq<char>, p: nat, left: ExprView) -> Parsed
    decreases remaining(s, p), 1nat,
{
    let ws = whitespace_run(s, p);
    if multiplicative_operator(peek_at(s, p + ws)) is Some {
        match factor_at(s, p + ws + 1) {
            Ok((right, n)) => after(
                ws + 1 + n,
                term_tail_at(
                    s,
                    p + ws + 1 + n,
                    binary(multiplicative_operator(peek_at(s, p + ws))->0, left, right),
                ),
            ),
            Err(e) => Err(e),
        }
    } else {
        Ok((left, ws))
    }
}

/// A term read at `p`.
pub open spec fn term_at(s: Seq<char>, p: nat) -> Parsed
    decreases remaining(s, p), 2nat,
{
    match factor_at(s, p) {
        Ok((left, n)) => after(n, term_tail_at(s, p + n, left)),
        Err(e) => Err(e),
    }
}

/// What follows an expression's first terms, which gave `left`: any number
/// of `+` or `-`, each with a term.
pub open spec fn expression_tail_at(s: Seq<char>, p: nat, left: ExprView) -> Parsed
    decreases remaining(s, p), 3nat,
{
    let ws = whitespace_run(s, p);
    if additive_operator(peek_at(s, p + ws)) is Some {
        match term_at(s, p + ws + 1) {
            Ok((right, n)) => after(
                ws + 1 + n,
                expression_tail_at(
                    s,
                    p + ws + 1 + n,
                    binary(additive_operator(peek_at(s, p + ws))->0, left, right),
                ),
            ),
            Err(e) => Err(e),
        }
    } else {
        Ok((left, ws))
    }
}

/// An expression read at `p`.
pub open spec fn expression_at(s: Seq<char>, p: nat) -> Parsed
    decreases remaining(s, p), 4nat,
{
    match term_at(s, p) {
        Ok((left, n)) => after(n, expression_tail_at(s, p + n, left)),
        Err(e) => Err(e),
    }
}

/// What a whole text reads as: the expression that starts it, whatever
/// follows that expression.
pub open spec fn evaluation(s: Seq<char>) -> Result<ExprView, ParseError> {
    match expression_at(s, 0) {
        Ok((e, _)) => Ok(e),
        Err(e) => Err(e),
    }
}

} // verus!

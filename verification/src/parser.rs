//! The recursive-descent reader: one function for each level of the grammar,
//! all moving one cursor.

use vstd::prelude::*;
use crate::chars::{is_number_char, is_number_start, is_whitespace};
use crate::whitespace::{
    lemma_expression_after_whitespace, lemma_factor_after_whitespace,
    lemma_number_after_whitespace, lemma_term_after_whitespace,
};
use crate::cursor::Cursor;
use crate::expr::{result_view, Expr, Operator, ParseError};
use crate::grammar::{
    after, evaluation, expression_at, expression_tail_at, factor_at, literals_are_decimal,
    number_at, number_run, point_count, remaining, term_at, term_tail_at, whitespace_run, Parsed,
};
use crate::progress::lemma_expression_advances;

verus! {

/// A reading function has done what `model` asks: from `before` it came to
/// `now` with `res`. On success the cursor stands behind the characters
/// taken, and on failure it has not moved back.
pub open spec fn reads_as(
    before: &Cursor,
    now: &Cursor,
    res: Result<Expr, ParseError>,
    model: Parsed,
) -> bool {
    &&& now.wf()
    &&& now.input() == before.input()
    &&& now.position() >= before.position()
    &&& match model {
        Ok((e, n)) => res is Ok && res->Ok_0@ == e && now.position() == before.position() + n,
        Err(e) => res == Err::<Expr, ParseError>(e),
    }
}

/// Moves the cursor over the whitespace it stands at.
pub fn skip_whitespace(cur: &mut Cursor)
    requires
        old(cur).wf(),
    ensures
        final(cur).wf(),
        final(cur).input() == old(cur).input(),
        final(cur).position() == old(cur).position() + whitespace_run(
            old(cur).input(),
            old(cur).position(),
        ),
{
    loop
        invariant
            cur.wf(),
            cur.input() == old(cur).input(),
            cur.position() + whitespace_run(cur.input(), cur.position()) == old(cur).position()
                + whitespace_run(old(cur).input(), old(cur).position()),
        ensures
            whitespace_run(cur.input(), cur.position()) == 0,
        decreases remaining(cur.input(), cur.position()),
    {
        match cur.peek() {
            Some(c) => {
                if is_whitespace(c) {
                    cur.advance();
                } else {
                    break ;
                }
            },
            None => {
                break ;
            },
        }
    }
}

/// Reads a number: after whitespace, the longest run of digits and points,
/// which has to be a decimal literal.
pub fn parse_number(cur: &mut Cursor) -> (res: Result<Expr, ParseError>)
    requires
        old(cur).wf(),
    ensures
        reads_as(old(cur), final(cur), res, number_at(old(cur).input(), old(cur).position())),
{
    skip_whitespace(cur);
    let ghost s = cur.input();
    let ghost start = cur.position();
    let mut text: Vec<char> = Vec::new();
    let mut points: usize = 0;
    loop
        invariant
            cur.wf(),
            cur.input() == s,
            start <= cur.position(),
            cur.position() + number_run(s, cur.position()) == start + number_run(s, start),
            text@ =~= s.subrange(start as int, cur.position() as int),
            points == point_count(text@),
            points <= text.len(),
            forall|i: int| 0 <= i < text.len() ==> is_number_char(#[trigger] text@[i]),
        ensures
            number_run(s, cur.position()) == 0,
        decreases remaining(cur.input(), cur.position()),
    {
        match cur.peek() {
            Some(c) => {
                if is_number_start(c) {
                    cur.advance();
                    proof {
                        assert(text@.push(c).drop_last() =~= text@);
                    }
                    text.push(c);
                    if c == '.' {
                        assert(points < text.len());
                        points = points + 1;
                    }
                } else {
                    break ;
                }
            },
            None => {
                break ;
            },
        }
    }
    if points <= 1 && points < text.len() {
        Ok(Expr::Number(text))
    } else {
        Err(ParseError::InvalidNumber)
    }
}

/// Reads a factor: a parenthesised expression or a number.
pub fn parse_factor(cur: &mut Cursor) -> (res: Result<Expr, ParseError>)
    requires
        old(cur).wf(),
    ensures
        reads_as(old(cur), final(cur), res, factor_at(old(cur).input(), old(cur).position())),
    decreases remaining(old(cur).input(), old(cur).position()), 0nat,
{
    skip_whitespace(cur);
    match cur.peek() {
        Some('(') => {
            cur.advance();
            skip_whitespace(cur);
            proof {
                lemma_expression_after_whitespace(
                    cur.input(),
                    (old(cur).position() + whitespace_run(old(cur).input(), old(cur).position())
                        + 1) as nat,
                );
            }
            let value = match parse_expression(cur) {
                Ok(value) => value,
                Err(e) => {
                    return Err(e);
                },
            };
            skip_whitespace(cur);
            match cur.advance() {
                Some(')') => Ok(value),
                _ => Err(ParseError::UnmatchedParenthesis),
            }
        },
        Some(c) => {
            if is_number_start(c) {
                proof {
                    lemma_number_after_whitespace(old(cur).input(), old(cur).position());
                }
                parse_number(cur)
            } else {
                Err(ParseError::InvalidFactor)
            }
        },
        None => Err(ParseError::InvalidFactor),
    }
}

/// Reads a term: factors joined by `*` and `/`, from left to right.
pub fn parse_term(cur: &mut Cursor) -> (res: Result<Expr, ParseError>)
    requires
        old(cur).wf(),
    ensures
        reads_as(old(cur), final(cur), res, term_at(old(cur).input(), old(cur).position())),
    decreases remaining(old(cur).input(), old(cur).position()), 2nat,
{
    let ghost s = cur.input();
    let ghost start = cur.position();
    skip_whitespace(cur);
    proof {
        lemma_factor_after_whitespace(s, start);
    }
    let mut value = match parse_factor(cur) {
        Ok(value) => value,
        Err(e) => {
            return Err(e);
        },
    };
    loop
        invariant_except_break
            term_at(s, start) == after(
                (cur.position() - start) as nat,
                term_tail_at(s, cur.position(), value@),
            ),
        invariant
            cur.wf(),
            cur.input() == s,
            start <= cur.position(),
            s == old(cur).input(),
            start == old(cur).position(),
        ensures
            reads_as(old(cur), cur, Ok(value), term_at(s, start)),
        decreases remaining(cur.input(), cur.position()),
    {
        let ghost here = cur.position();
        skip_whitespace(cur);
        let op = match cur.peek() {
            Some('*') => Operator::Multiply,
            Some('/') => Operator::Divide,
            _ => {
                break ;
            },
        };
        cur.advance();
        skip_whitespace(cur);
        proof {
            lemma_factor_after_whitespace(s, (here + whitespace_run(s, here) + 1) as nat);
        }
        let right = match parse_factor(cur) {
            Ok(right) => right,
            Err(e) => {
                return Err(e);
            },
        };
        value = Expr::Binary(op, Box::new(value), Box::new(right));
    }
    Ok(value)
}

/// Reads an expression: terms joined by `+` and `-`, from left to right.
pub fn parse_expression(cur: &mut Cursor) -> (res: Result<Expr, ParseError>)
    requires
        old(cur).wf(),
    ensures
        reads_as(old(cur), final(cur), res, expression_at(old(cur).input(), old(cur).position())),
    decreases remaining(old(cur).input(), old(cur).position()), 4nat,
{
    let ghost s = cur.input();
    let ghost start = cur.position();
    skip_whitespace(cur);
    proof {
        lemma_term_after_whitespace(s, start);
    }
    let mut value = match parse_term(cur) {
        Ok(value) => value,
        Err(e) => {
            return Err(e);
        },
    };
    loop
        invariant_except_break
            expression_at(s, start) == after(
                (cur.position() - start) as nat,
                expression_tail_at(s, cur.position(), value@),
            ),
        invariant
            cur.wf(),
            cur.input() == s,
            start <= cur.position(),
            s == old(cur).input(),
            start == old(cur).position(),
        ensures
            reads_as(old(cur), cur, Ok(value), expression_at(s, start)),
        decreases remaining(cur.input(), cur.position()),
    {
        let ghost here = cur.position();
        skip_whitespace(cur);
        let op = match cur.peek() {
            Some('+') => Operator::Add,
            Some('-') => Operator::Subtract,
            _ => {
                break ;
            },
        };
        cur.advance();
        skip_whitespace(cur);
        proof {
            lemma_term_after_whitespace(s, (here + whitespace_run(s, here) + 1) as nat);
        }
        let right = match parse_term(cur) {
            Ok(right) => right,
            Err(e) => {
                return Err(e);
            },
        };
        value = Expr::Binary(op, Box::new(value), Box::new(right));
    }
    Ok(value)
}

/// Reads the expression that `expr` starts with, as the tree of operations
/// that fixes its value. What follows the expression is not looked at.
pub fn evaluate_expression(expr: &str) -> (res: Result<Expr, ParseError>)
    ensures
        result_view(res) == evaluation(expr@),
        res is Ok ==> literals_are_decimal(res->Ok_0@),
{
    let mut cur = Cursor::new(expr);
    proof {
        lemma_expression_advances(expr@, 0);
    }
    parse_expression(&mut cur)
}

/// Reading is a function of the text alone: whenever one text is read twice,
/// both readings give the same expression or the same error.
pub proof fn lemma_reading_is_repeatable(
    text: Seq<char>,
    first: Result<Expr, ParseError>,
    second: Result<Expr, ParseError>,
)
    requires
        result_view(first) == evaluation(text),
        result_view(second) == evaluation(text),
    ensures
        result_view(first) == result_view(second),
        first is Err ==> first == second,
{
}

} // verus!

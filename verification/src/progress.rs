//! What holds of everything that is read: it takes at least one character
//! and none beyond the end of the text, and its literals are decimal
//! literals.

use vstd::prelude::*;
use crate::expr::ExprView;
use crate::grammar::{
    additive_operator, expression_at, expression_tail_at, factor_at, multiplicative_operator,
    binary, literals_are_decimal, number_at, number_run, peek_at, remaining, term_at,
    term_tail_at, whitespace_run, Parsed,
};

verus! {

/// If `r` was read at `p`, it took at least `least` characters, ended
/// within the text, and holds decimal literals only.
pub open spec fn takes(s: Seq<char>, p: nat, r: Parsed, least: nat) -> bool {
    r is Ok ==> {
        &&& least <= r->Ok_0.1
        &&& p + r->Ok_0.1 <= s.len()
        &&& literals_are_decimal(r->Ok_0.0)
    }
}

/// A run of whitespace, and a run of digits and points, ends within the text.
pub proof fn lemma_runs_bounded(s: Seq<char>, p: nat)
    requires
        p <= s.len(),
    ensures
        p + whitespace_run(s, p) <= s.len(),
        p + number_run(s, p) <= s.len(),
    decreases remaining(s, p),
{
    if p < s.len() {
        lemma_runs_bounded(s, p + 1);
    }
}

/// A number takes at least one character.
pub proof fn lemma_number_advances(s: Seq<char>, p: nat)
    requires
        p <= s.len(),
    ensures
        takes(s, p, number_at(s, p), 1),
{
    lemma_runs_bounded(s, p);
    lemma_runs_bounded(s, p + whitespace_run(s, p));
}

/// A factor takes at least one character.
pub proof fn lemma_factor_advances(s: Seq<char>, p: nat)
    requires
        p <= s.len(),
    ensures
        takes(s, p, factor_at(s, p), 1),
    decreases remaining(s, p), 0nat,
{
    lemma_runs_bounded(s, p);
    let q = p + whitespace_run(s, p);
    if peek_at(s, q) == Some('(') {
        lemma_expression_advances(s, q + 1);
    } else {
        lemma_number_advances(s, p);
    }
}

/// What follows a term's first factors ends within the text.
pub proof fn lemma_term_tail_advances(s: Seq<char>, p: nat, left: ExprView)
    requires
        p <= s.len(),
        literals_are_decimal(left),
    ensures
        takes(s, p, term_tail_at(s, p, left), 0),
    decreases remaining(s, p), 1nat,
{
    lemma_runs_bounded(s, p);
    let q = p + whitespace_run(s, p);
    if multiplicative_operator(peek_at(s, q)) is Some {
        lemma_factor_advances(s, q + 1);
        match factor_at(s, q + 1) {
            Ok((right, n)) => {
                let next = binary(multiplicative_operator(peek_at(s, q))->0, left, right);
                lemma_term_tail_advances(s, q + 1 + n, next);
            },
            Err(_) => {},
        }
    }
}

/// A term takes at least one character.
pub proof fn lemma_term_advances(s: Seq<char>, p: nat)
    requires
        p <= s.len(),
    ensures
        takes(s, p, term_at(s, p), 1),
    decreases remaining(s, p), 2nat,
{
    lemma_factor_advances(s, p);
    match factor_at(s, p) {
        Ok((left, n)) => {
            lemma_term_tail_advances(s, p + n, left);
        },
        Err(_) => {},
    }
}

/// What follows an expression's first terms ends within the text.
pub proof fn lemma_expression_tail_advances(s: Seq<char>, p: nat, left: ExprView)
    requires
        p <= s.len(),
        literals_are_decimal(left),
    ensures
        takes(s, p, expression_tail_at(s, p, left), 0),
    decreases remaining(s, p), 3nat,
{
    lemma_runs_bounded(s, p);
    let q = p + whitespace_run(s, p);
    if additive_operator(peek_at(s, q)) is Some {
        lemma_term_advances(s, q + 1);
        match term_at(s, q + 1) {
            Ok((right, n)) => {
                let next = binary(additive_operator(peek_at(s, q))->0, left, right);
                lemma_expression_tail_advances(s, q + 1 + n, next);
            },
            Err(_) => {},
        }
    }
}

/// An expression takes at least one character.
pub proof fn lemma_expression_advances(s: Seq<char>, p: nat)
    requires
        p <= s.len(),
    ensures
        takes(s, p, expression_at(s, p), 1),
    decreases remaining(s, p), 4nat,
{
    lemma_term_advances(s, p);
    match term_at(s, p) {
        Ok((left, n)) => {
            lemma_expression_tail_advances(s, p + n, left);
        },
        Err(_) => {},
    }
}

} // verus!

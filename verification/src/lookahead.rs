//! Reading looks one character ahead and no further: what is read depends
//! on the characters taken and on the one behind them, whatever follows.

use vstd::prelude::*;
use crate::expr::ExprView;
use crate::grammar::{
    additive_operator, binary, evaluation, expression_at, expression_tail_at, factor_at,
    multiplicative_operator, number_at, number_run, peek_at, remaining, term_at, term_tail_at,
    whitespace_run,
};
use crate::progress::{
    lemma_expression_advances, lemma_factor_advances, lemma_runs_bounded, lemma_term_advances,
};

verus! {

/// The texts `s` and `u` hold the same characters from position `from` to
/// position `to`, both included, or end at the same position between them.
pub open spec fn same_between(s: Seq<char>, u: Seq<char>, from: nat, to: nat) -> bool {
    forall|i: nat| from <= i <= to ==> peek_at(u, i) == #[trigger] peek_at(s, i)
}

/// A run of whitespace is the same in two texts that are the same up to the
/// character behind it.
proof fn lemma_whitespace_run_same(s: Seq<char>, u: Seq<char>, p: nat)
    requires
        same_between(s, u, p, p + whitespace_run(s, p)),
    ensures
        whitespace_run(u, p) == whitespace_run(s, p),
    decreases remaining(s, p),
{
    assert(peek_at(u, p) == peek_at(s, p));
    if whitespace_run(s, p) > 0 {
        lemma_whitespace_run_same(s, u, p + 1);
    }
}

/// A run of digits and points is the same in two texts that are the same up
/// to the character behind it.
proof fn lemma_number_run_same(s: Seq<char>, u: Seq<char>, p: nat)
    requires
        same_between(s, u, p, p + number_run(s, p)),
    ensures
        number_run(u, p) == number_run(s, p),
    decreases remaining(s, p),
{
    assert(peek_at(u, p) == peek_at(s, p));
    if number_run(s, p) > 0 {
        lemma_number_run_same(s, u, p + 1);
    }
}

/// A number reads the same in two texts that are the same up to the
/// character behind it.
proof fn lemma_number_same(s: Seq<char>, u: Seq<char>, p: nat)
    requires
        p <= s.len(),
        number_at(s, p) is Ok,
        same_between(s, u, p, p + number_at(s, p)->Ok_0.1),
    ensures
        number_at(u, p) == number_at(s, p),
{
    let ws = whitespace_run(s, p);
    let len = number_run(s, p + ws);
    lemma_runs_bounded(s, p);
    lemma_runs_bounded(s, p + ws);
    lemma_whitespace_run_same(s, u, p);
    lemma_number_run_same(s, u, p + ws);
    let a = (p + ws) as int;
    let b = (p + ws + len) as int;
    assert forall|i: int| a <= i < b implies u.len() > i && u[i] == s[i] by {
        assert(peek_at(u, i as nat) == peek_at(s, i as nat));
    }
    assert(u.subrange(a, b) =~= s.subrange(a, b));
}

/// A factor reads the same in two texts that are the same up to the
/// character behind it.
proof fn lemma_factor_same(s: Seq<char>, u: Seq<char>, p: nat)
    requires
        p <= s.len(),
        factor_at(s, p) is Ok,
        same_between(s, u, p, p + factor_at(s, p)->Ok_0.1),
    ensures
        factor_at(u, p) == factor_at(s, p),
    decreases remaining(s, p), 0nat,
{
    let ws = whitespace_run(s, p);
    let q = p + ws;
    lemma_runs_bounded(s, p);
    if peek_at(s, q) == Some('(') {
        lemma_expression_advances(s, q + 1);
        let n = expression_at(s, q + 1)->Ok_0.1;
        let gap = whitespace_run(s, q + 1 + n);
        lemma_whitespace_run_same(s, u, p);
        assert(peek_at(u, q) == peek_at(s, q));
        lemma_expression_same(s, u, q + 1);
        lemma_whitespace_run_same(s, u, q + 1 + n);
        assert(peek_at(u, q + 1 + n + gap) == peek_at(s, q + 1 + n + gap));
    } else {
        assert(number_at(s, p) == factor_at(s, p));
        lemma_whitespace_run_same(s, u, p);
        assert(peek_at(u, q) == peek_at(s, q));
        lemma_number_same(s, u, p);
    }
}

/// What follows a term's first factors reads the same in two texts that are
/// the same up to the character behind it.
proof fn lemma_term_tail_same(s: Seq<char>, u: Seq<char>, p: nat, left: ExprView)
    requires
        p <= s.len(),
        term_tail_at(s, p, left) is Ok,
        same_between(s, u, p, p + term_tail_at(s, p, left)->Ok_0.1),
    ensures
        term_tail_at(u, p, left) == term_tail_at(s, p, left),
    decreases remaining(s, p), 1nat,
{
    let ws = whitespace_run(s, p);
    let q = p + ws;
    lemma_runs_bounded(s, p);
    lemma_whitespace_run_same(s, u, p);
    assert(peek_at(u, q) == peek_at(s, q));
    if multiplicative_operator(peek_at(s, q)) is Some {
        lemma_factor_advances(s, q + 1);
        let right = factor_at(s, q + 1)->Ok_0.0;
        let n = factor_at(s, q + 1)->Ok_0.1;
        let next = binary(multiplicative_operator(peek_at(s, q))->0, left, right);
        assert(term_tail_at(s, q + 1 + n, next) is Ok);
        lemma_factor_same(s, u, q + 1);
        lemma_term_tail_same(s, u, q + 1 + n, next);
    }
}

/// A term reads the same in two texts that are the same up to the character
/// behind it.
proof fn lemma_term_same(s: Seq<char>, u: Seq<char>, p: nat)
    requires
        p <= s.len(),
        term_at(s, p) is Ok,
        same_between(s, u, p, p + term_at(s, p)->Ok_0.1),
    ensures
        term_at(u, p) == term_at(s, p),
    decreases remaining(s, p), 2nat,
{
    lemma_factor_advances(s, p);
    let left = factor_at(s, p)->Ok_0.0;
    let n = factor_at(s, p)->Ok_0.1;
    assert(term_tail_at(s, p + n, left) is Ok);
    lemma_factor_same(s, u, p);
    lemma_term_tail_same(s, u, p + n, left);
}

/// What follows an expression's first terms reads the same in two texts
/// that are the same up to the character behind it.
proof fn lemma_expression_tail_same(s: Seq<char>, u: Seq<char>, p: nat, left: ExprView)
    requires
        p <= s.len(),
        expression_tail_at(s, p, left) is Ok,
        same_between(s, u, p, p + expression_tail_at(s, p, left)->Ok_0.1),
    ensures
        expression_tail_at(u, p, left) == expression_tail_at(s, p, left),
    decreases remaining(s, p), 3nat,
{
    let ws = whitespace_run(s, p);
    let q = p + ws;
    lemma_runs_bounded(s, p);
    lemma_whitespace_run_same(s, u, p);
    assert(peek_at(u, q) == peek_at(s, q));
    if additive_operator(peek_at(s, q)) is Some {
        lemma_term_advances(s, q + 1);
        let right = term_at(s, q + 1)->Ok_0.0;
        let n = term_at(s, q + 1)->Ok_0.1;
        let next = binary(additive_operator(peek_at(s, q))->0, left, right);
        assert(expression_tail_at(s, q + 1 + n, next) is Ok);
        lemma_term_same(s, u, q + 1);
        lemma_expression_tail_same(s, u, q + 1 + n, next);
    }
}

/// An expression reads the same in two texts that are the same up to the
/// character behind it.
proof fn lemma_expression_same(s: Seq<char>, u: Seq<char>, p: nat)
    requires
        p <= s.len(),
        expression_at(s, p) is Ok,
        same_between(s, u, p, p + expression_at(s, p)->Ok_0.1),
    ensures
        expression_at(u, p) == expression_at(s, p),
    decreases remaining(s, p), 4nat,
{
    lemma_term_advances(s, p);
    let left = term_at(s, p)->Ok_0.0;
    let n = term_at(s, p)->Ok_0.1;
    assert(expression_tail_at(s, p + n, left) is Ok);
    lemma_term_same(s, u, p);
    lemma_expression_tail_same(s, u, p + n, left);
}

/// What follows an expression does not matter: if `s` starts with an
/// expression, every text that is the same up to the character behind that
/// expression reads as the same expression.
pub proof fn lemma_rest_is_ignored(s: Seq<char>, u: Seq<char>)
    requires
        expression_at(s, 0) is Ok,
        same_between(s, u, 0, expression_at(s, 0)->Ok_0.1),
    ensures
        evaluation(u) == evaluation(s),
{
    lemma_expression_same(s, u, 0);
}

} // verus!

//! Whitespace changes nothing: what the grammar's functions read does not
//! depend on the whitespace before a token, nor on how much of it stands
//! between two tokens.

use vstd::prelude::*;
use crate::chars::{is_number_char, is_whitespace_char};
use crate::expr::{ExprView, ParseError};
use crate::progress::lemma_runs_bounded;
use crate::grammar::{
    additive_operator, after, binary, evaluation, expression_at, expression_tail_at, factor_at,
    multiplicative_operator, number_at, number_run, peek_at, remaining, term_at, term_tail_at,
    whitespace_run, Parsed,
};

verus! {

/// Behind a run of whitespace stands no whitespace.
pub proof fn lemma_whitespace_run_ends(s: Seq<char>, p: nat)
    ensures
        whitespace_run(s, p + whitespace_run(s, p)) == 0,
    decreases remaining(s, p),
{
    if peek_at(s, p) is Some && is_whitespace_char(peek_at(s, p)->0) {
        lemma_whitespace_run_ends(s, p + 1);
    }
}

/// A number reads the same before and behind the whitespace it starts with.
pub proof fn lemma_number_after_whitespace(s: Seq<char>, p: nat)
    ensures
        number_at(s, p) == after(whitespace_run(s, p), number_at(s, p + whitespace_run(s, p))),
{
    lemma_whitespace_run_ends(s, p);
}

/// A factor reads the same before and behind the whitespace it starts with.
pub proof fn lemma_factor_after_whitespace(s: Seq<char>, p: nat)
    ensures
        factor_at(s, p) == after(whitespace_run(s, p), factor_at(s, p + whitespace_run(s, p))),
{
    lemma_whitespace_run_ends(s, p);
    lemma_number_after_whitespace(s, p);
}

/// A term reads the same before and behind the whitespace it starts with.
pub proof fn lemma_term_after_whitespace(s: Seq<char>, p: nat)
    ensures
        term_at(s, p) == after(whitespace_run(s, p), term_at(s, p + whitespace_run(s, p))),
{
    lemma_factor_after_whitespace(s, p);
}

/// An expression reads the same before and behind the whitespace it starts
/// with.
pub proof fn lemma_expression_after_whitespace(s: Seq<char>, p: nat)
    ensures
        expression_at(s, p) == after(
            whitespace_run(s, p),
            expression_at(s, p + whitespace_run(s, p)),
        ),
{
    lemma_term_after_whitespace(s, p);
}

/// Position `k` of `s` lies between two tokens: not within a run of digits
/// and points.
pub open spec fn between_tokens(s: Seq<char>, k: nat) -> bool {
    &&& k <= s.len()
    &&& !(0 < k < s.len() && is_number_char(s[k - 1]) && is_number_char(s[k as int]))
}

/// Where position `p` of a text lies once a character is put in at `k`.
pub open spec fn shifted(k: nat, p: nat) -> nat {
    if p < k {
        p
    } else {
        p + 1
    }
}

/// Position `p` of a text and position `pw` of the text with a character put
/// in at `k` stand for each other: `pw` is where `p` lies now, or both are
/// `k`, just before the new character.
pub open spec fn corresponds(k: nat, p: nat, pw: nat) -> bool {
    pw == shifted(k, p) || (p == k && pw == k)
}

/// Reading `s` at `p` gave `r`, reading the widened text at `pw` gave `rw`:
/// the same error, or the same expression up to positions that stand for
/// each other.
pub open spec fn agree(s: Seq<char>, k: nat, p: nat, r: Parsed, pw: nat, rw: Parsed) -> bool {
    match r {
        Ok((e, n)) => rw is Ok && rw->Ok_0.0 == e && p + n <= s.len() && corresponds(
            k,
            p + n,
            pw + rw->Ok_0.1,
        ),
        Err(x) => rw == Err::<(ExprView, nat), ParseError>(x),
    }
}

/// The characters of a text with one put in at `k`.
proof fn lemma_inserted(s: Seq<char>, k: nat, w: char)
    requires
        k <= s.len(),
    ensures
        s.insert(k as int, w).len() == s.len() + 1,
        s.insert(k as int, w)[k as int] == w,
        forall|i: int| 0 <= i < k ==> #[trigger] s.insert(k as int, w)[i] == s[i],
        forall|i: int| k <= i < s.len() ==> s.insert(k as int, w)[i + 1] == #[trigger] s[i],
        forall|p: nat| peek_at(s.insert(k as int, w), shifted(k, p)) == #[trigger] peek_at(s, p),
{
    let t = s.insert(k as int, w);
    assert forall|p: nat| peek_at(t, shifted(k, p)) == #[trigger] peek_at(s, p) by {
        if p < s.len() {
            if p < k {
                assert(t[p as int] == s[p as int]);
            } else {
                assert(t[p as int + 1] == s[p as int]);
            }
        }
    }
}

/// The character at a position is the one at the position it lies at once a
/// character is put in at `k`.
proof fn lemma_peek_inserted(s: Seq<char>, k: nat, w: char, p: nat)
    requires
        k <= s.len(),
    ensures
        peek_at(s.insert(k as int, w), shifted(k, p)) == peek_at(s, p),
{
    lemma_inserted(s, k, w);
}

/// Skipping whitespace from positions that stand for each other ends at
/// positions that stand for each other, the new character skipped.
proof fn lemma_whitespace_run_inserted(s: Seq<char>, k: nat, w: char, p: nat, pw: nat)
    requires
        k <= s.len(),
        is_whitespace_char(w),
        corresponds(k, p, pw),
    ensures
        pw + whitespace_run(s.insert(k as int, w), pw) == shifted(k, p + whitespace_run(s, p)),
    decreases remaining(s.insert(k as int, w), pw),
{
    let t = s.insert(k as int, w);
    lemma_inserted(s, k, w);
    if p == k && pw == k {
        assert(peek_at(t, k) == Some(w));
        lemma_whitespace_run_inserted(s, k, w, k, k + 1);
    } else {
        assert(peek_at(t, pw) == peek_at(s, p));
        if peek_at(s, p) is Some && is_whitespace_char(peek_at(s, p)->0) {
            lemma_whitespace_run_inserted(s, k, w, p + 1, pw + 1);
        }
    }
}

/// A run of digits and points is as long as before, and one that starts
/// before `k` ends there at the latest.
proof fn lemma_number_run_inserted(s: Seq<char>, k: nat, w: char, q: nat)
    requires
        between_tokens(s, k),
        is_whitespace_char(w),
    ensures
        number_run(s.insert(k as int, w), shifted(k, q)) == number_run(s, q),
        q < k ==> q + number_run(s, q) <= k,
    decreases remaining(s, q),
{
    let t = s.insert(k as int, w);
    lemma_inserted(s, k, w);
    assert(peek_at(t, shifted(k, q)) == peek_at(s, q));
    if peek_at(s, q) is Some && is_number_char(peek_at(s, q)->0) {
        lemma_number_run_inserted(s, k, w, q + 1);
        if q + 1 == k {
            assert(peek_at(t, k) == Some(w));
            assert(number_run(t, k) == 0);
            assert(number_run(s, k) == 0);
        }
    }
}

/// A number reads the same in both texts.
proof fn lemma_number_inserted(s: Seq<char>, k: nat, w: char, p: nat, pw: nat)
    requires
        between_tokens(s, k),
        is_whitespace_char(w),
        p <= s.len(),
        corresponds(k, p, pw),
    ensures
        agree(s, k, p, number_at(s, p), pw, number_at(s.insert(k as int, w), pw)),
{
    let t = s.insert(k as int, w);
    lemma_inserted(s, k, w);
    lemma_whitespace_run_inserted(s, k, w, p, pw);
    lemma_runs_bounded(s, p);
    let q = p + whitespace_run(s, p);
    let qw = pw + whitespace_run(t, pw);
    lemma_number_run_inserted(s, k, w, q);
    lemma_runs_bounded(s, q);
    let len = number_run(s, q);
    assert(t.subrange(qw as int, (qw + len) as int) =~= s.subrange(q as int, (q + len) as int));
}

/// A factor reads the same in both texts.
proof fn lemma_factor_inserted(s: Seq<char>, k: nat, w: char, p: nat, pw: nat)
    requires
        between_tokens(s, k),
        is_whitespace_char(w),
        p <= s.len(),
        corresponds(k, p, pw),
    ensures
        agree(s, k, p, factor_at(s, p), pw, factor_at(s.insert(k as int, w), pw)),
    decreases remaining(s, p), 0nat,
{
    let t = s.insert(k as int, w);
    lemma_whitespace_run_inserted(s, k, w, p, pw);
    lemma_runs_bounded(s, p);
    let q = p + whitespace_run(s, p);
    let qw = pw + whitespace_run(t, pw);
    lemma_peek_inserted(s, k, w, q);
    if peek_at(s, q) == Some('(') {
        lemma_expression_inserted(s, k, w, q + 1, qw + 1);
        match expression_at(s, q + 1) {
            Ok((inner, n)) => {
                let nw = expression_at(t, qw + 1)->Ok_0.1;
                let e = q + 1 + n;
                let ew = qw + 1 + nw;
                lemma_whitespace_run_inserted(s, k, w, e, ew);
                lemma_runs_bounded(s, e);
                let c = e + whitespace_run(s, e);
                let cw = ew + whitespace_run(t, ew);
                lemma_peek_inserted(s, k, w, c);
            },
            Err(_) => {},
        }
    } else if peek_at(s, q) is Some && is_number_char(peek_at(s, q)->0) {
        lemma_number_inserted(s, k, w, p, pw);
    }
}

/// What follows a term's first factors reads the same in both texts.
proof fn lemma_term_tail_inserted(
    s: Seq<char>,
    k: nat,
    w: char,
    p: nat,
    pw: nat,
    left: ExprView,
)
    requires
        between_tokens(s, k),
        is_whitespace_char(w),
        p <= s.len(),
        corresponds(k, p, pw),
    ensures
        agree(
            s,
            k,
            p,
            term_tail_at(s, p, left),
            pw,
            term_tail_at(s.insert(k as int, w), pw, left),
        ),
    decreases remaining(s, p), 1nat,
{
    let t = s.insert(k as int, w);
    lemma_whitespace_run_inserted(s, k, w, p, pw);
    lemma_runs_bounded(s, p);
    let q = p + whitespace_run(s, p);
    let qw = pw + whitespace_run(t, pw);
    lemma_peek_inserted(s, k, w, q);
    if multiplicative_operator(peek_at(s, q)) is Some {
        lemma_factor_inserted(s, k, w, q + 1, qw + 1);
        match factor_at(s, q + 1) {
            Ok((right, n)) => {
                let nw = factor_at(t, qw + 1)->Ok_0.1;
                let next = binary(multiplicative_operator(peek_at(s, q))->0, left, right);
                lemma_term_tail_inserted(s, k, w, q + 1 + n, qw + 1 + nw, next);
            },
            Err(_) => {},
        }
    }
}

/// A term reads the same in both texts.
proof fn lemma_term_inserted(s: Seq<char>, k: nat, w: char, p: nat, pw: nat)
    requires
        between_tokens(s, k),
        is_whitespace_char(w),
        p <= s.len(),
        corresponds(k, p, pw),
    ensures
        agree(s, k, p, term_at(s, p), pw, term_at(s.insert(k as int, w), pw)),
    decreases remaining(s, p), 2nat,
{
    let t = s.insert(k as int, w);
    lemma_factor_inserted(s, k, w, p, pw);
    match factor_at(s, p) {
        Ok((left, n)) => {
            let nw = factor_at(t, pw)->Ok_0.1;
            lemma_term_tail_inserted(s, k, w, p + n, pw + nw, left);
        },
        Err(_) => {},
    }
}

/// What follows an expression's first terms reads the same in both texts.
proof fn lemma_expression_tail_inserted(
    s: Seq<char>,
    k: nat,
    w: char,
    p: nat,
    pw: nat,
    left: ExprView,
)
    requires
        between_tokens(s, k),
        is_whitespace_char(w),
        p <= s.len(),
        corresponds(k, p, pw),
    ensures
        agree(
            s,
            k,
            p,
            expression_tail_at(s, p, left),
            pw,
            expression_tail_at(s.insert(k as int, w), pw, left),
        ),
    decreases remaining(s, p), 3nat,
{
    let t = s.insert(k as int, w);
    lemma_whitespace_run_inserted(s, k, w, p, pw);
    lemma_runs_bounded(s, p);
    let q = p + whitespace_run(s, p);
    let qw = pw + whitespace_run(t, pw);
    lemma_peek_inserted(s, k, w, q);
    if additive_operator(peek_at(s, q)) is Some {
        lemma_term_inserted(s, k, w, q + 1, qw + 1);
        match term_at(s, q + 1) {
            Ok((right, n)) => {
                let nw = term_at(t, qw + 1)->Ok_0.1;
                let next = binary(additive_operator(peek_at(s, q))->0, left, right);
                lemma_expression_tail_inserted(s, k, w, q + 1 + n, qw + 1 + nw, next);
            },
            Err(_) => {},
        }
    }
}

/// An expression reads the same in both texts.
proof fn lemma_expression_inserted(s: Seq<char>, k: nat, w: char, p: nat, pw: nat)
    requires
        between_tokens(s, k),
        is_whitespace_char(w),
        p <= s.len(),
        corresponds(k, p, pw),
    ensures
        agree(s, k, p, expression_at(s, p), pw, expression_at(s.insert(k as int, w), pw)),
    decreases remaining(s, p), 4nat,
{
    let t = s.insert(k as int, w);
    lemma_term_inserted(s, k, w, p, pw);
    match term_at(s, p) {
        Ok((left, n)) => {
            let nw = term_at(t, pw)->Ok_0.1;
            lemma_expression_tail_inserted(s, k, w, p + n, pw + nw, left);
        },
        Err(_) => {},
    }
}

/// A whitespace character put between two tokens of a text, before its
/// first or behind its last, changes nothing: the text reads as the same
/// expression, or fails with the same error. Any amount of whitespace comes
/// in by putting in one character after the other.
pub proof fn lemma_whitespace_between_tokens(s: Seq<char>, k: nat, w: char)
    requires
        between_tokens(s, k),
        is_whitespace_char(w),
    ensures
        evaluation(s.insert(k as int, w)) == evaluation(s),
{
    lemma_expression_inserted(s, k, w, 0, 0);
}

/// The text `s` after the characters of `steps` were put in, one after the
/// other, each at its position in the text as it then stood.
pub open spec fn spaced(s: Seq<char>, steps: Seq<(nat, char)>) -> Seq<char>
    decreases steps.len(),
{
    if steps.len() == 0 {
        s
    } else {
        spaced(s, steps.drop_last()).insert(steps.last().0 as int, steps.last().1)
    }
}

/// Every character of `steps` is whitespace and goes in between two tokens.
pub open spec fn only_spacing(s: Seq<char>, steps: Seq<(nat, char)>) -> bool
    decreases steps.len(),
{
    steps.len() == 0 || {
        &&& only_spacing(s, steps.drop_last())
        &&& between_tokens(spaced(s, steps.drop_last()), steps.last().0)
        &&& is_whitespace_char(steps.last().1)
    }
}

/// Any amount of whitespace put between the tokens of a text changes
/// nothing: the text reads as the same expression, or fails with the same
/// error.
pub proof fn lemma_spacing_changes_nothing(s: Seq<char>, steps: Seq<(nat, char)>)
    requires
        only_spacing(s, steps),
    ensures
        evaluation(spaced(s, steps)) == evaluation(s),
    decreases steps.len(),
{
    if steps.len() > 0 {
        lemma_spacing_changes_nothing(s, steps.drop_last());
        lemma_whitespace_between_tokens(
            spaced(s, steps.drop_last()),
            steps.last().0,
            steps.last().1,
        );
    }
}

} // verus!

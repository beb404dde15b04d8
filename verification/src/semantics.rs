//! The meaning of an expression: token classification, the operand-stack
//! semantics, and the error taxonomy.
//!
//! `run` processes a token sequence left to right over a stack of
//! mathematical integers; `eval_expr` is the value (or error) of a whole
//! expression string.  The executable evaluator is proved to return exactly
//! what `eval_expr` says.

use crate::arith::{tdiv, tmod};
use crate::decimal::{all_digits, is_digit, is_literal, lit_val};
use crate::decimal::{dec_chars_of, lemma_dec_chars_round_trip};
use crate::tokens::{is_ws, lemma_tokenize_single, tokenize};
use vstd::prelude::*;

verus! {

/// Why an evaluation failed.
///
/// The three structural kinds classify malformed expressions; `Unknown` is
/// the fatal-arithmetic kind, raised for division or modulo by zero.
#[derive(Clone, Copy, Debug, PartialEq, Eq, Structural)]
pub enum RpnError {
    FailedToParseNumber,
    NotEnoughOperands,
    NotEnoughOperators,
    Unknown,
}

/// Is `t` one of the five operator tokens?
pub open spec fn is_op(t: Seq<char>) -> bool {
    t.len() == 1 && (t[0] == '+' || t[0] == '-' || t[0] == '*' || t[0] == '/' || t[0] == '%')
}

/// Does the operator character demand a non-zero right operand?
pub open spec fn is_divlike(c: char) -> bool {
    c == '/' || c == '%'
}

/// Result of one operator on the left operand `a` and right operand `b`.
pub open spec fn apply_op(c: char, a: int, b: int) -> int
    recommends
        is_divlike(c) ==> b != 0,
{
    if c == '+' {
        a + b
    } else if c == '-' {
        a - b
    } else if c == '*' {
        a * b
    } else if c == '/' {
        tdiv(a, b)
    } else {
        tmod(a, b)
    }
}

/// Process the tokens left to right on the given operand stack.
pub open spec fn run(toks: Seq<Seq<char>>, stack: Seq<int>) -> Result<Seq<int>, RpnError>
    decreases toks.len(),
{
    if toks.len() == 0 {
        Ok(stack)
    } else {
        let t = toks[0];
        if is_op(t) {
            if stack.len() < 2 {
                Err(RpnError::NotEnoughOperands)
            } else {
                let a = stack[stack.len() - 2];
                let b = stack[stack.len() - 1];
                if is_divlike(t[0]) && b == 0 {
                    Err(RpnError::Unknown)
                } else {
                    run(toks.skip(1), stack.take(stack.len() - 2).push(apply_op(t[0], a, b)))
                }
            }
        } else if is_literal(t) {
            run(toks.skip(1), stack.push(lit_val(t)))
        } else {
            Err(RpnError::FailedToParseNumber)
        }
    }
}

/// The value (or error) of a whole expression string.
pub open spec fn eval_expr(s: Seq<char>) -> Result<int, RpnError> {
    match run(tokenize(s), Seq::empty()) {
        Ok(stack) => {
            if stack.len() == 0 {
                Err(RpnError::NotEnoughOperands)
            } else if stack.len() == 1 {
                Ok(stack[0])
            } else {
                Err(RpnError::NotEnoughOperators)
            }
        },
        Err(e) => Err(e),
    }
}

/// Number of literal tokens.
pub open spec fn count_lits(toks: Seq<Seq<char>>) -> int
    decreases toks.len(),
{
    if toks.len() == 0 {
        0
    } else {
        (if is_literal(toks[0]) {
            1int
        } else {
            0int
        }) + count_lits(toks.skip(1))
    }
}

/// Number of operator tokens.
pub open spec fn count_ops(toks: Seq<Seq<char>>) -> int
    decreases toks.len(),
{
    if toks.len() == 0 {
        0
    } else {
        (if is_op(toks[0]) {
            1int
        } else {
            0int
        }) + count_ops(toks.skip(1))
    }
}

/// Starting from `depth` pending operands, every operator token sees at
/// least two values on the stack.
pub open spec fn balanced_prefixes(toks: Seq<Seq<char>>, depth: int) -> bool {
    forall|i: int|
        0 <= i < toks.len() && is_op(#[trigger] toks[i]) ==> depth + count_lits(toks.take(i))
            - count_ops(toks.take(i)) >= 2
}

/// A valid RPN token sequence: every token is a literal or an operator, there
/// is exactly one more literal than operators, and the stack holds at least
/// two values whenever an operator is reached.
pub open spec fn well_formed_rpn(toks: Seq<Seq<char>>) -> bool {
    &&& forall|i: int|
        0 <= i < toks.len() ==> is_op(#[trigger] toks[i]) || is_literal(toks[i])
    &&& count_lits(toks) == count_ops(toks) + 1
    &&& balanced_prefixes(toks, 0)
}

/// An operator token is never a literal token.
pub proof fn lemma_op_not_literal(t: Seq<char>)
    requires
        is_op(t),
    ensures
        !is_literal(t),
{
    if is_literal(t) {
        if t[0] == '-' {
        } else {
            assert(all_digits(t));
            assert(is_digit(t[0]));
        }
    }
}

proof fn lemma_count_single(t: Seq<char>)
    ensures
        count_lits(seq![t]) == (if is_literal(t) {
            1int
        } else {
            0int
        }),
        count_ops(seq![t]) == (if is_op(t) {
            1int
        } else {
            0int
        }),
{
    assert(seq![t].skip(1) =~= Seq::<Seq<char>>::empty());
    assert(count_lits(Seq::<Seq<char>>::empty()) == 0);
    assert(count_ops(Seq::<Seq<char>>::empty()) == 0);
}

proof fn lemma_count_concat(a: Seq<Seq<char>>, b: Seq<Seq<char>>)
    ensures
        count_lits(a + b) == count_lits(a) + count_lits(b),
        count_ops(a + b) == count_ops(a) + count_ops(b),
    decreases a.len(),
{
    if a.len() == 0 {
        assert(a + b =~= b);
        assert(count_lits(a) == 0);
        assert(count_ops(a) == 0);
    } else {
        assert((a + b).skip(1) =~= a.skip(1) + b);
        assert((a + b)[0] == a[0]);
        assert((a + b).len() > 0);
        lemma_count_concat(a.skip(1), b);
    }
}

proof fn lemma_run_well_formed(toks: Seq<Seq<char>>, stack: Seq<int>)
    requires
        forall|i: int| 0 <= i < toks.len() ==> is_op(#[trigger] toks[i]) || is_literal(toks[i]),
        balanced_prefixes(toks, stack.len() as int),
    ensures
        match run(toks, stack) {
            Ok(st) => st.len() == stack.len() + count_lits(toks) - count_ops(toks),
            Err(e) => e == RpnError::Unknown,
        },
    decreases toks.len(),
{
    if toks.len() == 0 {
        assert(count_lits(toks) == 0);
        assert(count_ops(toks) == 0);
    } else {
        let t = toks[0];
        let rest = toks.skip(1);
        assert(seq![t] + rest =~= toks);
        lemma_count_concat(seq![t], rest);
        lemma_count_single(t);
        if is_op(t) {
            lemma_op_not_literal(t);
            assert(toks.take(0) =~= Seq::<Seq<char>>::empty());
            assert(count_lits(Seq::<Seq<char>>::empty()) == 0);
            assert(count_ops(Seq::<Seq<char>>::empty()) == 0);
            assert(stack.len() + count_lits(toks.take(0)) - count_ops(toks.take(0)) >= 2);
            let a = stack[stack.len() - 2];
            let b = stack[stack.len() - 1];
            if is_divlike(t[0]) && b == 0 {
            } else {
                let stack2 = stack.take(stack.len() - 2).push(apply_op(t[0], a, b));
                assert(stack2.len() == stack.len() - 1);
                assert forall|i: int|
                    0 <= i < rest.len() && is_op(#[trigger] rest[i]) implies stack2.len() as int
                    + count_lits(rest.take(i)) - count_ops(rest.take(i)) >= 2 by {
                    assert(toks[i + 1] == rest[i]);
                    assert(toks.take(i + 1) =~= seq![t] + rest.take(i));
                    lemma_count_concat(seq![t], rest.take(i));
                }
                lemma_run_well_formed(rest, stack2);
            }
        } else {
            assert(is_literal(t));
            let stack2 = stack.push(lit_val(t));
            assert forall|i: int|
                0 <= i < rest.len() && is_op(#[trigger] rest[i]) implies stack2.len() as int
                + count_lits(rest.take(i)) - count_ops(rest.take(i)) >= 2 by {
                assert(toks[i + 1] == rest[i]);
                assert(toks.take(i + 1) =~= seq![t] + rest.take(i));
                lemma_count_concat(seq![t], rest.take(i));
            }
            lemma_run_well_formed(rest, stack2);
        }
    }
}

/// Law: a valid RPN token sequence — as many operators as literals less one,
/// in any order that keeps the stack depth at least two before each operator
/// — evaluates to exactly one value, except that a division or modulo by
/// zero along the way yields the fatal-arithmetic error instead.
pub proof fn lemma_well_formed_rpn_evaluates(toks: Seq<Seq<char>>)
    requires
        well_formed_rpn(toks),
    ensures
        match run(toks, Seq::empty()) {
            Ok(st) => st.len() == 1,
            Err(e) => e == RpnError::Unknown,
        },
{
    assert(Seq::<int>::empty().len() == 0);
    lemma_run_well_formed(toks, Seq::empty());
}

/// Law: the same, at the level of a whole expression string.
pub proof fn lemma_well_formed_expr(s: Seq<char>)
    requires
        well_formed_rpn(tokenize(s)),
    ensures
        eval_expr(s) is Ok || eval_expr(s) == Err::<int, RpnError>(RpnError::Unknown),
{
    lemma_well_formed_rpn_evaluates(tokenize(s));
}

/// Law: the canonical decimal string of any value is a valid expression that
/// evaluates back to that value.
pub proof fn lemma_reparse_canonical(v: int)
    ensures
        eval_expr(dec_chars_of(v)) == Ok::<int, RpnError>(v),
{
    lemma_dec_chars_round_trip(v);
    let t = dec_chars_of(v);
    assert forall|i: int| 0 <= i < t.len() implies !is_ws(#[trigger] t[i]) by {
        if t.len() > 0 && t[0] == '-' && i == 0 {
            assert(!is_ws('-'));
        } else if t.len() > 0 && t[0] == '-' {
            assert(t[i] == t.skip(1)[i - 1]);
            assert(is_digit(t[i]));
        } else {
            assert(is_digit(t[i]));
        }
    }
    lemma_tokenize_single(t);
    assert(!is_op(t)) by {
        if is_op(t) {
            lemma_op_not_literal(t);
        }
    }
    let toks = seq![t];
    assert(toks.skip(1) =~= Seq::<Seq<char>>::empty());
    let stack2 = Seq::<int>::empty().push(v);
    assert(run(toks, Seq::<int>::empty()) == run(toks.skip(1), stack2));
    assert(run(Seq::<Seq<char>>::empty(), stack2) == Ok::<Seq<int>, RpnError>(stack2));
    assert(stack2.len() == 1);
    assert(stack2[0] == v);
}

} // verus!

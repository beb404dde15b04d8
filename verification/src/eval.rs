//! The executable evaluator: one pass over the tokens with an operand stack
//! of gmp values, returning exactly what `eval_expr` specifies.

use crate::bignum::BigNum;
use crate::decimal::{is_literal_str, lit_val};
use crate::gmpz::{
    mpz_add, mpz_div, mpz_from_literal, mpz_int, mpz_is_zero, mpz_mul, mpz_rem, mpz_sub,
};
use crate::semantics::{apply_op, eval_expr, is_op, run, RpnError};
use crate::tokens::{tokenize_str, views_of};
use gmp::mpz::Mpz;
use vstd::prelude::*;
use vstd::string::*;

verus! {

/// The integers held by a stack of gmp values.
pub open spec fn stack_ints(values: Seq<Mpz>) -> Seq<int> {
    values.map_values(|m: Mpz| mpz_int(m))
}

/// What `rpn` returns: exactly the value or error that `eval_expr` gives,
/// the value packaged as a well-formed `BigNum`.
pub open spec fn rpn_post(text: Seq<char>, r: Result<BigNum, RpnError>) -> bool {
    match eval_expr(text) {
        Ok(v) => match r {
            Ok(b) => b.wf() && b.value() == v,
            Err(_) => false,
        },
        Err(e) => match r {
            Ok(_) => false,
            Err(e2) => e2 == e,
        },
    }
}

fn op_char(t: &str) -> (r: Option<char>)
    ensures
        (r is Some) == is_op(t@),
        r is Some ==> r == Some(t@[0]),
{
    if t.unicode_len() == 1 {
        let c = t.get_char(0);
        if c == '+' || c == '-' || c == '*' || c == '/' || c == '%' {
            Some(c)
        } else {
            None
        }
    } else {
        None
    }
}

/// Evaluate one RPN expression over arbitrary-precision integers.
///
/// Tokens are split on ASCII whitespace; a literal pushes its value, an
/// operator pops the right then the left operand and pushes the result.
/// The errors come exactly as `eval_expr` classifies them.
#[verifier::loop_isolation(false)]
pub fn rpn(text: &str) -> (r: Result<BigNum, RpnError>)
    ensures
        rpn_post(text@, r),
{
    let toks = tokenize_str(text);
    let ghost tv = views_of(toks@);
    let mut values: Vec<Mpz> = Vec::new();
    let mut idx: usize = 0;
    proof {
        assert(tv.skip(0) =~= tv);
        assert(stack_ints(Seq::<Mpz>::empty()) =~= Seq::<int>::empty());
    }
    while idx < toks.len()
        invariant
            idx <= toks.len(),
            run(tv, Seq::<int>::empty()) == run(tv.skip(idx as int), stack_ints(values@)),
        decreases toks.len() - idx,
    {
        let t: &String = &toks[idx];
        let ghost rest = tv.skip(idx as int);
        let ghost st = stack_ints(values@);
        proof {
            assert(tv[idx as int] == t@);
            assert(rest[0] == t@);
            assert(rest.skip(1) =~= tv.skip(idx as int + 1));
        }
        match op_char(t.as_str()) {
            Some(c) => {
                if values.len() < 2 {
                    return Err(RpnError::NotEnoughOperands);
                }
                let b = values.pop().unwrap();
                let a = values.pop().unwrap();
                proof {
                    assert(st[st.len() - 1] == mpz_int(b));
                    assert(st[st.len() - 2] == mpz_int(a));
                }
                let divlike = c == '/' || c == '%';
                if divlike && mpz_is_zero(&b) {
                    return Err(RpnError::Unknown);
                }
                let newv = if c == '+' {
                    mpz_add(a, b)
                } else if c == '-' {
                    mpz_sub(a, b)
                } else if c == '*' {
                    mpz_mul(a, b)
                } else if c == '/' {
                    mpz_div(a, b)
                } else {
                    mpz_rem(a, b)
                };
                proof {
                    assert(mpz_int(newv) == apply_op(c, st[st.len() - 2], st[st.len() - 1]));
                }
                values.push(newv);
                proof {
                    assert(stack_ints(values@) =~= st.take(st.len() - 2).push(mpz_int(newv)));
                }
            },
            None => {
                if is_literal_str(t.as_str()) {
                    let mv = mpz_from_literal(t.as_str());
                    values.push(mv);
                    proof {
                        assert(stack_ints(values@) =~= st.push(lit_val(t@)));
                    }
                } else {
                    return Err(RpnError::FailedToParseNumber);
                }
            },
        }
        idx = idx + 1;
    }
    proof {
        assert(tv.skip(toks.len() as int) =~= Seq::<Seq<char>>::empty());
    }
    if values.len() == 0 {
        Err(RpnError::NotEnoughOperands)
    } else if values.len() == 1 {
        let top = values.pop().unwrap();
        proof {
            assert(stack_ints(values@).push(mpz_int(top)) =~= stack_ints(values@.push(top)));
        }
        Ok(BigNum::new(top))
    } else {
        Err(RpnError::NotEnoughOperators)
    }
}

/// Law: when a result's value lies outside the signed 64-bit range, its
/// machine-integer view is absent, and its decimal string is itself an
/// expression that evaluates back to the same value.
pub proof fn lemma_big_value_round_trip(b: &BigNum)
    requires
        b.wf(),
        !(i64::MIN <= b.value() <= i64::MAX),
    ensures
        b.spec_i64() is None,
        eval_expr(b.spec_str()) == Ok::<int, RpnError>(b.value()),
{
    b.lemma_views();
    crate::semantics::lemma_reparse_canonical(b.value());
}

/// Law: evaluation is a pure function of the expression text — any two
/// results for the same text agree in the error kind or in both views of
/// the value.
pub proof fn lemma_rpn_deterministic(
    text: Seq<char>,
    r1: Result<BigNum, RpnError>,
    r2: Result<BigNum, RpnError>,
)
    requires
        rpn_post(text, r1),
        rpn_post(text, r2),
    ensures
        match (r1, r2) {
            (Ok(b1), Ok(b2)) => b1.spec_str() == b2.spec_str() && b1.spec_i64() == b2.spec_i64(),
            (Err(e1), Err(e2)) => e1 == e2,
            _ => false,
        },
{
    match (r1, r2) {
        (Ok(b1), Ok(b2)) => {
            BigNum::lemma_value_determines_views(&b1, &b2);
        },
        _ => {},
    }
}

} // verus!

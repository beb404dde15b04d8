//! Truncating division and the matching remainder on mathematical integers.
//!
//! The SMT-level `/` and `%` on `int` are Euclidean; the evaluator's `/` and
//! `%` truncate the quotient toward zero, with the remainder taking the sign
//! of the dividend.  These spec functions define that semantics, and the
//! lemmas relate it to the Euclidean operators.

use vstd::arithmetic::div_mod::lemma_fundamental_div_mod;
use vstd::arithmetic::div_mod::lemma_remainder;
use vstd::prelude::*;

verus! {

/// Absolute value of an integer.
pub open spec fn abs_int(a: int) -> int {
    if a >= 0 {
        a
    } else {
        -a
    }
}

/// Quotient of `a` by `b`, rounded toward zero.
pub open spec fn tdiv(a: int, b: int) -> int
    recommends
        b != 0,
{
    if (a >= 0) == (b >= 0) {
        abs_int(a) / abs_int(b)
    } else {
        -(abs_int(a) / abs_int(b))
    }
}

/// Remainder of `a` by `b` consistent with `tdiv`: `a == b * tdiv(a, b) + tmod(a, b)`.
pub open spec fn tmod(a: int, b: int) -> int
    recommends
        b != 0,
{
    a - b * tdiv(a, b)
}

/// The remainder is smaller in magnitude than the divisor and takes the sign
/// of the dividend (or is zero).
pub proof fn lemma_tmod_range(a: int, b: int)
    requires
        b != 0,
    ensures
        abs_int(tmod(a, b)) < abs_int(b),
        tmod(a, b) == 0 || ((tmod(a, b) > 0) == (a > 0)),
{
    let p = abs_int(a);
    let q = abs_int(b);
    lemma_fundamental_div_mod(p, q);
    lemma_remainder(p, q);
    let r = p - (p / q) * q;
    assert(0 <= r < q);
    if a >= 0 {
        if b >= 0 {
            assert(tmod(a, b) == a - b * (p / q));
            assert(a - b * (p / q) == r) by (nonlinear_arith)
                requires
                    a == p,
                    b == q,
                    r == p - (p / q) * q,
            ;
        } else {
            assert(tmod(a, b) == a - b * (-(p / q)));
            assert(a - b * (-(p / q)) == r) by (nonlinear_arith)
                requires
                    a == p,
                    b == -q,
                    r == p - (p / q) * q,
            ;
        }
        assert(tmod(a, b) == r);
        assert(r > 0 ==> a > 0);
        assert(a == 0 ==> r == 0);
    } else {
        if b >= 0 {
            assert(tmod(a, b) == a - b * (-(p / q)));
            assert(a - b * (-(p / q)) == -r) by (nonlinear_arith)
                requires
                    a == -p,
                    b == q,
                    r == p - (p / q) * q,
            ;
        } else {
            assert(tmod(a, b) == a - b * (p / q));
            assert(a - b * (p / q) == -r) by (nonlinear_arith)
                requires
                    a == -p,
                    b == -q,
                    r == p - (p / q) * q,
            ;
        }
        assert(tmod(a, b) == -r);
    }
}

/// Truncating-division law: for every non-zero `b`, the quotient and the
/// remainder recompose the dividend exactly.
pub proof fn lemma_trunc_div_law(a: int, b: int)
    requires
        b != 0,
    ensures
        tdiv(a, b) * b + tmod(a, b) == a,
{
    assert(tdiv(a, b) * b == b * tdiv(a, b)) by (nonlinear_arith);
}

} // verus!

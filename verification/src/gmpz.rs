//! Trusted interface to the gmp crate's arbitrary-precision integers.
//!
//! An `Mpz` value is opaque to the verifier; `mpz_int` names the integer it
//! holds.  Each wrapper makes one gmp call and states, over that name, what
//! rust-gmp's source shows the call does (it forwards to GMP's `mpz_*`
//! functions).  Nothing in this module is verified.

use crate::arith::{tdiv, tmod};
use crate::decimal::{dec_chars_of, is_literal, lit_val};
use gmp::mpz::Mpz;
use vstd::prelude::*;

verus! {

#[verifier::external_type_specification]
#[verifier::external_body]
pub struct ExMpz(Mpz);

/// The integer held by an `Mpz` value.
pub uninterp spec fn mpz_int(m: Mpz) -> int;

/// Relies on `Mpz::from_str_radix` with base 10 (GMP's `mpz_init_set_str`):
/// on a well-formed literal it succeeds and yields the denoted value.
#[verifier::external_body]
pub(crate) fn mpz_from_literal(s: &str) -> (r: Mpz)
    requires
        is_literal(s@),
    ensures
        mpz_int(r) == lit_val(s@),
{
    Mpz::from_str_radix(s, 10).unwrap()
}

/// Relies on `Mpz::to_str_radix` with base 10 (GMP's `mpz_get_str`): the
/// canonical decimal string — minimal digits, a `-` prefix, `"0"` for zero.
#[verifier::external_body]
pub(crate) fn mpz_to_dec(m: &Mpz) -> (r: String)
    ensures
        r@ == dec_chars_of(mpz_int(*m)),
{
    m.to_str_radix(10)
}

/// Relies on `Mpz::is_zero` (a test of GMP's limb count).
#[verifier::external_body]
pub(crate) fn mpz_is_zero(m: &Mpz) -> (r: bool)
    ensures
        r == (mpz_int(*m) == 0),
{
    m.is_zero()
}

/// Relies on the `Add` impl for `Mpz` (GMP's `mpz_add`).
#[verifier::external_body]
pub(crate) fn mpz_add(a: Mpz, b: Mpz) -> (r: Mpz)
    ensures
        mpz_int(r) == mpz_int(a) + mpz_int(b),
{
    a + b
}

/// Relies on the `Sub` impl for `Mpz` (GMP's `mpz_sub`).
#[verifier::external_body]
pub(crate) fn mpz_sub(a: Mpz, b: Mpz) -> (r: Mpz)
    ensures
        mpz_int(r) == mpz_int(a) - mpz_int(b),
{
    a - b
}

/// Relies on the `Mul` impl for `Mpz` (GMP's `mpz_mul`).
#[verifier::external_body]
pub(crate) fn mpz_mul(a: Mpz, b: Mpz) -> (r: Mpz)
    ensures
        mpz_int(r) == mpz_int(a) * mpz_int(b),
{
    a * b
}

/// Relies on the `Div` impl for `Mpz` (GMP's `mpz_tdiv_q`: the quotient
/// truncated toward zero).  It panics on a zero divisor, which the
/// precondition rules out.
#[verifier::external_body]
pub(crate) fn mpz_div(a: Mpz, b: Mpz) -> (r: Mpz)
    requires
        mpz_int(b) != 0,
    ensures
        mpz_int(r) == tdiv(mpz_int(a), mpz_int(b)),
{
    a / b
}

/// Relies on the `Rem` impl for `Mpz` (GMP's `mpz_tdiv_r`: the remainder of
/// truncating division, taking the dividend's sign).  It panics on a zero
/// divisor, which the precondition rules out.
#[verifier::external_body]
pub(crate) fn mpz_rem(a: Mpz, b: Mpz) -> (r: Mpz)
    requires
        mpz_int(b) != 0,
    ensures
        mpz_int(r) == tmod(mpz_int(a), mpz_int(b)),
{
    a % b
}

} // verus!

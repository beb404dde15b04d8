//! Evaluator for reverse-Polish-notation arithmetic over arbitrary-precision
//! integers.
//!
//! An expression is a whitespace-separated sequence of tokens; a token is
//! either a base-10 integer literal (optionally with a leading `-`) or one of
//! the binary operators `+ - * / %`.  Evaluation is stack-based: a literal
//! pushes its value, an operator pops the two topmost values and pushes the
//! result.  The big-integer arithmetic itself is done by gmp; everything
//! around it — tokenization, the literal grammar, the stack discipline, the
//! error taxonomy, and the fit-into-`i64` check — is verified against the
//! specification functions in `semantics`, `decimal`, `tokens` and `arith`.

pub mod arith;
pub mod bignum;
pub mod decimal;
pub mod eval;
pub mod gmpz;
pub mod semantics;
pub mod tokens;

pub use arith::{tdiv, tmod};
pub use bignum::BigNum;
pub use eval::{rpn, rpn_post};
pub use semantics::{eval_expr, RpnError};

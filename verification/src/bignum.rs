//! The evaluation result: an arbitrary-precision value exposed as its
//! canonical decimal string, with a machine-integer view when it fits.

use crate::decimal::{dec_chars_of, digit_val, digits_of, digits_val, is_canonical, is_digit,
    lemma_dec_chars_round_trip, lemma_digits_of_len, lemma_digits_of_shape, lemma_digits_of_val,
    lemma_pow10_19, lemma_pow10_mono, lit_val, pow10};
use crate::gmpz::{mpz_int, mpz_to_dec};
use gmp::mpz::Mpz;
use vstd::prelude::*;
use vstd::string::*;

verus! {

/// An arbitrary-precision signed integer result.
///
/// Immutable once constructed.  It holds the canonical base-10 string of its
/// value, and the value as an `i64` exactly when it fits that range.
pub struct BigNum {
    strval: String,
    intval: Option<i64>,
}

impl BigNum {
    /// The integer this result holds.
    pub closed spec fn value(&self) -> int {
        lit_val(self.strval@)
    }

    /// The decimal-string view.
    pub closed spec fn spec_str(&self) -> Seq<char> {
        self.strval@
    }

    /// The machine-integer view.
    pub closed spec fn spec_i64(&self) -> Option<i64> {
        self.intval
    }

    /// Well-formed: the string is the canonical decimal of the value, and
    /// the machine view is present exactly when the value fits an `i64`.
    pub closed spec fn wf(&self) -> bool {
        &&& self.strval@ == dec_chars_of(self.value())
        &&& match self.intval {
            Some(x) => self.value() == x as int,
            None => !(i64::MIN <= self.value() <= i64::MAX),
        }
    }

    /// What well-formedness pins down: both views are functions of the value.
    pub proof fn lemma_views(&self)
        requires
            self.wf(),
        ensures
            self.spec_str() == dec_chars_of(self.value()),
            self.spec_i64() == (if i64::MIN <= self.value() <= i64::MAX {
                Some(self.value() as i64)
            } else {
                None::<i64>
            }),
    {
    }

    /// Two well-formed results holding the same value are indistinguishable.
    pub proof fn lemma_value_determines_views(a: &BigNum, b: &BigNum)
        requires
            a.wf(),
            b.wf(),
            a.value() == b.value(),
        ensures
            a.spec_str() == b.spec_str(),
            a.spec_i64() == b.spec_i64(),
    {
        a.lemma_views();
        b.lemma_views();
    }

    /// Package a gmp value.
    pub(crate) fn new(value: Mpz) -> (r: BigNum)
        ensures
            r.wf(),
            r.value() == mpz_int(value),
    {
        let strval = mpz_to_dec(&value);
        proof {
            lemma_dec_chars_round_trip(mpz_int(value));
        }
        let intval = parse_i64(strval.as_str());
        BigNum { strval, intval }
    }

    /// The value as a signed 64-bit integer, when it fits that range.
    pub fn as_i64(&self) -> (r: Option<i64>)
        ensures
            r == self.spec_i64(),
            self.wf() ==> r == (if i64::MIN <= self.value() <= i64::MAX {
                Some(self.value() as i64)
            } else {
                None::<i64>
            }),
    {
        proof {
            if self.wf() {
                self.lemma_views();
            }
        }
        self.intval
    }

    /// The canonical base-10 representation.
    pub fn as_str(&self) -> (r: &str)
        ensures
            r@ == self.spec_str(),
            self.wf() ==> r@ == dec_chars_of(self.value()),
    {
        self.strval.as_str()
    }
}

/// Read a canonical decimal string back as an `i64`, if its value fits.
#[verifier::loop_isolation(false)]
fn parse_i64(s: &str) -> (r: Option<i64>)
    requires
        is_canonical(s@),
    ensures
        r == (if i64::MIN <= lit_val(s@) <= i64::MAX {
            Some(lit_val(s@) as i64)
        } else {
            None::<i64>
        }),
{
    let ghost v = lit_val(s@);
    let ghost m = if v >= 0 {
        v
    } else {
        -v
    };
    proof {
        lemma_digits_of_shape(m);
        if v < 0 {
            assert(s@ == seq!['-'] + digits_of(m));
            assert(s@[0] == '-');
            assert(s@.skip(1) =~= digits_of(m));
        } else {
            assert(s@ == digits_of(m));
        }
        lemma_digits_of_val(m);
    }
    let n: usize = s.unicode_len();
    let c0 = s.get_char(0);
    let neg = c0 == '-';
    let start: usize = if neg {
        1
    } else {
        0
    };
    proof {
        assert(neg == (v < 0));
        assert(s@.skip(start as int) =~= digits_of(m));
        assert(digits_val(digits_of(m)) == m);
        lemma_pow10_19();
    }
    if n - start > 19 {
        proof {
            if m < pow10(19) {
                lemma_digits_of_len(m, 19);
                assert(false);
            }
        }
        return None;
    }
    let mut mag: u64 = 0;
    let mut i: usize = start;
    proof {
        assert(s@.subrange(start as int, start as int) =~= Seq::<char>::empty());
        assert(digits_val(Seq::<char>::empty()) == 0);
        assert(pow10(0) == 1);
    }
    while i < n
        invariant
            start <= i <= n,
            mag as int == digits_val(s@.subrange(start as int, i as int)),
            (mag as int) < pow10(i as int - start as int),
        decreases n - i,
    {
        let c = s.get_char(i);
        proof {
            assert(s@[i as int] == digits_of(m)[i as int - start as int]);
            assert(is_digit(s@[i as int]));
        }
        let u: u32 = c as u32;
        let d: u64 = (u - 48) as u64;
        proof {
            assert(d as int == digit_val(s@[i as int]));
            assert(d <= 9);
            assert(pow10(i as int - start as int + 1) == 10 * pow10(i as int - start as int));
            lemma_pow10_mono(i as int - start as int + 1, 19);
            assert((mag as int) * 10 + (d as int) < pow10(i as int - start as int + 1));
        }
        mag = mag * 10 + d;
        proof {
            let pre = s@.subrange(start as int, i as int);
            let post = s@.subrange(start as int, i as int + 1);
            assert(post.drop_last() =~= pre);
            assert(post.last() == s@[i as int]);
            assert(digits_val(post) == digits_val(pre) * 10 + digit_val(s@[i as int]));
        }
        i = i + 1;
    }
    proof {
        assert(s@.subrange(start as int, n as int) =~= digits_of(m));
        assert(mag as int == m);
    }
    if neg {
        if mag <= 9223372036854775808u64 {
            if mag == 9223372036854775808u64 {
                Some(i64::MIN)
            } else {
                Some(-(mag as i64))
            }
        } else {
            None
        }
    } else {
        if mag <= 9223372036854775807u64 {
            Some(mag as i64)
        } else {
            None
        }
    }
}

} // verus!

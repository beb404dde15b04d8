//! Base-10 integer literals and canonical decimal strings.
//!
//! A literal token is an optional leading `-` followed by one or more ASCII
//! digits (no leading `+`, no separators).  `dec_chars_of` is the canonical
//! decimal rendering of an integer: minimal digits, a `-` prefix for negative
//! values, `"0"` for zero.  The lemmas prove the round trip between the two.

use vstd::arithmetic::div_mod::lemma_fundamental_div_mod;
use vstd::arithmetic::div_mod::lemma_mod_bound;
use vstd::prelude::*;
use vstd::string::*;

verus! {

/// Is `c` an ASCII decimal digit?
pub open spec fn is_digit(c: char) -> bool {
    48 <= c as u32 && c as u32 <= 57
}

/// Numeric value of a digit character.
pub open spec fn digit_val(c: char) -> int
    recommends
        is_digit(c),
{
    (c as u32) as int - 48
}

/// Every character of `s` is an ASCII decimal digit.
pub open spec fn all_digits(s: Seq<char>) -> bool {
    forall|i: int| 0 <= i < s.len() ==> is_digit(#[trigger] s[i])
}

/// Value of a digit string, most significant digit first.
pub open spec fn digits_val(s: Seq<char>) -> int
    recommends
        all_digits(s),
    decreases s.len(),
{
    if s.len() == 0 {
        0
    } else {
        digits_val(s.drop_last()) * 10 + digit_val(s.last())
    }
}

/// Is `t` a well-formed integer literal token?
pub open spec fn is_literal(t: Seq<char>) -> bool {
    if t.len() > 0 && t[0] == '-' {
        t.len() >= 2 && all_digits(t.skip(1))
    } else {
        t.len() >= 1 && all_digits(t)
    }
}

/// Value denoted by a literal token.
pub open spec fn lit_val(t: Seq<char>) -> int
    recommends
        is_literal(t),
{
    if t.len() > 0 && t[0] == '-' {
        -digits_val(t.skip(1))
    } else {
        digits_val(t)
    }
}

/// Digit character for a value below ten.
pub open spec fn digit_char(d: int) -> char
    recommends
        0 <= d < 10,
{
    if d == 0 {
        '0'
    } else if d == 1 {
        '1'
    } else if d == 2 {
        '2'
    } else if d == 3 {
        '3'
    } else if d == 4 {
        '4'
    } else if d == 5 {
        '5'
    } else if d == 6 {
        '6'
    } else if d == 7 {
        '7'
    } else if d == 8 {
        '8'
    } else {
        '9'
    }
}

/// Minimal digit string of a nonnegative integer, most significant first.
pub open spec fn digits_of(m: int) -> Seq<char>
    recommends
        m >= 0,
    decreases m,
{
    if m < 10 {
        seq![digit_char(m)]
    } else {
        digits_of(m / 10).push(digit_char(m % 10))
    }
}

/// Canonical decimal string of an integer.
pub open spec fn dec_chars_of(v: int) -> Seq<char> {
    if v < 0 {
        seq!['-'] + digits_of(-v)
    } else {
        digits_of(v)
    }
}

/// `s` is the canonical decimal string of the value it denotes.
pub open spec fn is_canonical(s: Seq<char>) -> bool {
    s == dec_chars_of(lit_val(s))
}

/// Ten to the power `k` (one for `k <= 0`).
pub open spec fn pow10(k: int) -> int
    decreases k,
{
    if k <= 0 {
        1
    } else {
        10 * pow10(k - 1)
    }
}

proof fn lemma_div10(m: int)
    requires
        m >= 10,
    ensures
        1 <= m / 10 < m,
        m == 10 * (m / 10) + m % 10,
        0 <= m % 10 < 10,
{
    lemma_fundamental_div_mod(m, 10);
    lemma_mod_bound(m, 10);
}

pub proof fn lemma_pow10_pos(k: int)
    ensures
        pow10(k) >= 1,
    decreases k,
{
    if k > 0 {
        lemma_pow10_pos(k - 1);
    }
}

pub proof fn lemma_pow10_mono(a: int, b: int)
    requires
        a <= b,
    ensures
        pow10(a) <= pow10(b),
    decreases b - a,
{
    if a < b {
        lemma_pow10_mono(a, b - 1);
        lemma_pow10_pos(b - 1);
    }
}

/// The digit string of a nonnegative integer is nonempty, consists of digits
/// only, and never starts with the sign character.
pub proof fn lemma_digits_of_shape(m: int)
    requires
        m >= 0,
    ensures
        digits_of(m).len() >= 1,
        all_digits(digits_of(m)),
        digits_of(m)[0] != '-',
    decreases m,
{
    if m < 10 {
        assert(is_digit(digit_char(m)));
    } else {
        lemma_div10(m);
        lemma_digits_of_shape(m / 10);
        let s = digits_of(m / 10);
        let t = s.push(digit_char(m % 10));
        assert(is_digit(digit_char(m % 10)));
        assert forall|i: int| 0 <= i < t.len() implies is_digit(#[trigger] t[i]) by {
            if i < s.len() {
                assert(t[i] == s[i]);
            }
        }
        assert(t[0] == s[0]);
    }
}

/// Reading the digit string of `m` back as a number gives `m`.
pub proof fn lemma_digits_of_val(m: int)
    requires
        m >= 0,
    ensures
        digits_val(digits_of(m)) == m,
    decreases m,
{
    if m < 10 {
        let t = seq![digit_char(m)];
        assert(t.drop_last() =~= Seq::<char>::empty());
        assert(digits_val(Seq::<char>::empty()) == 0);
        assert(t.last() == digit_char(m));
        assert(digit_val(digit_char(m)) == m);
        assert(digits_val(t) == digits_val(t.drop_last()) * 10 + digit_val(t.last()));
    } else {
        lemma_div10(m);
        lemma_digits_of_val(m / 10);
        let s = digits_of(m / 10);
        let t = s.push(digit_char(m % 10));
        assert(t.drop_last() =~= s);
        assert(t.last() == digit_char(m % 10));
        assert(digit_val(digit_char(m % 10)) == m % 10);
        assert(digits_val(t) == digits_val(t.drop_last()) * 10 + digit_val(t.last()));
    }
}

/// The canonical decimal string of any integer is a literal token, and it
/// re-parses to the same value.
pub proof fn lemma_dec_chars_round_trip(v: int)
    ensures
        is_literal(dec_chars_of(v)),
        lit_val(dec_chars_of(v)) == v,
        is_canonical(dec_chars_of(v)),
        dec_chars_of(v).len() >= 1,
{
    if v >= 0 {
        lemma_digits_of_shape(v);
        lemma_digits_of_val(v);
    } else {
        lemma_digits_of_shape(-v);
        lemma_digits_of_val(-v);
        let t = seq!['-'] + digits_of(-v);
        assert(t[0] == '-');
        assert(t.skip(1) =~= digits_of(-v));
    }
}

pub proof fn lemma_pow10_19()
    ensures
        pow10(19) == 10000000000000000000,
{
    reveal_with_fuel(pow10, 21);
}

/// A number below `pow10(k)` has at most `k` digits.
pub proof fn lemma_digits_of_len(m: int, k: int)
    requires
        0 <= m,
        1 <= k,
        m < pow10(k),
    ensures
        digits_of(m).len() <= k,
    decreases m,
{
    if m >= 10 {
        lemma_div10(m);
        assert(pow10(k) == 10 * pow10(k - 1));
        if k == 1 {
            assert(pow10(0) == 1);
            assert(false);
        }
        assert(m / 10 < pow10(k - 1));
        lemma_digits_of_len(m / 10, k - 1);
    }
}

/// Check whether a token is a well-formed integer literal.
#[verifier::loop_isolation(false)]
pub(crate) fn is_literal_str(t: &str) -> (r: bool)
    ensures
        r == is_literal(t@),
{
    let n: usize = t.unicode_len();
    if n == 0 {
        return false;
    }
    let c0 = t.get_char(0);
    let start: usize = if c0 == '-' {
        1
    } else {
        0
    };
    if n <= start {
        return false;
    }
    let mut i: usize = start;
    while i < n
        invariant
            start <= i <= n,
            forall|j: int| start <= j < i ==> is_digit(#[trigger] t@[j]),
        decreases n - i,
    {
        let c = t.get_char(i);
        let u: u32 = c as u32;
        if u < 48 || u > 57 {
            proof {
                assert(!is_digit(t@[i as int]));
                if t@[0] == '-' {
                    assert(t@.skip(1)[i as int - 1] == t@[i as int]);
                }
            }
            return false;
        }
        i = i + 1;
    }
    proof {
        if t@[0] == '-' {
            assert forall|j: int| 0 <= j < t@.skip(1).len() implies is_digit(
                #[trigger] t@.skip(1)[j],
            ) by {
                assert(t@.skip(1)[j] == t@[j + 1]);
            }
        }
    }
    true
}

} // verus!

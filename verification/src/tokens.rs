//! Splitting an expression into whitespace-separated tokens.
//!
//! `tokenize` is the specification: the maximal runs of non-whitespace
//! characters, in order, where whitespace means the five ASCII whitespace
//! characters.  `tokenize_str` is the verified executable splitter.

use vstd::prelude::*;
use vstd::string::*;

verus! {

/// Is `c` one of the five ASCII whitespace characters?
pub open spec fn is_ws(c: char) -> bool {
    c == ' ' || c == '\t' || c == '\n' || c == '\u{000C}' || c == '\r'
}

/// Length of the maximal non-whitespace prefix of `s`.
pub open spec fn word_len(s: Seq<char>) -> int
    decreases s.len(),
{
    if s.len() == 0 || is_ws(s[0]) {
        0
    } else {
        1 + word_len(s.skip(1))
    }
}

pub proof fn lemma_word_len_bounds(s: Seq<char>)
    ensures
        0 <= word_len(s) <= s.len(),
        forall|i: int| 0 <= i < word_len(s) ==> !is_ws(#[trigger] s[i]),
    decreases s.len(),
{
    if s.len() == 0 || is_ws(s[0]) {
    } else {
        lemma_word_len_bounds(s.skip(1));
        assert forall|i: int| 0 <= i < word_len(s) implies !is_ws(#[trigger] s[i]) by {
            if i > 0 {
                assert(s[i] == s.skip(1)[i - 1]);
            }
        }
    }
}

/// The whitespace-separated tokens of `s`, in order.
pub open spec fn tokenize(s: Seq<char>) -> Seq<Seq<char>>
    decreases s.len(),
    via tokenize_decreases
{
    if s.len() == 0 {
        Seq::empty()
    } else if is_ws(s[0]) {
        tokenize(s.skip(1))
    } else {
        seq![s.take(word_len(s))] + tokenize(s.skip(word_len(s)))
    }
}

#[via_fn]
proof fn tokenize_decreases(s: Seq<char>) {
    lemma_word_len_bounds(s);
    if s.len() > 0 && !is_ws(s[0]) {
        lemma_word_len_bounds(s.skip(1));
        assert(word_len(s) == 1 + word_len(s.skip(1)));
    }
}

/// A nonempty string without whitespace is a single token.
pub proof fn lemma_tokenize_single(t: Seq<char>)
    requires
        t.len() > 0,
        forall|i: int| 0 <= i < t.len() ==> !is_ws(#[trigger] t[i]),
    ensures
        tokenize(t) == seq![t],
{
    lemma_word_len_bounds(t);
    lemma_word_len_le(t, t.len());
    assert(word_len(t) == t.len());
    assert(t.take(t.len() as int) =~= t);
    assert(t.skip(t.len() as int) =~= Seq::<char>::empty());
    assert(tokenize(Seq::<char>::empty()) =~= Seq::<Seq<char>>::empty());
    assert(tokenize(t) =~= seq![t]);
}

/// If the first `k` characters of `s` are not whitespace, the maximal word is
/// at least `k` long.
proof fn lemma_word_len_le(s: Seq<char>, k: nat)
    requires
        k <= s.len(),
        forall|i: int| 0 <= i < k ==> !is_ws(#[trigger] s[i]),
    ensures
        word_len(s) >= k,
    decreases k,
{
    lemma_word_len_bounds(s);
    if k > 0 {
        assert(!is_ws(s[0]));
        assert forall|i: int| 0 <= i < k - 1 implies !is_ws(#[trigger] s.skip(1)[i]) by {
            assert(s.skip(1)[i] == s[i + 1]);
        }
        lemma_word_len_le(s.skip(1), (k - 1) as nat);
        assert(word_len(s) == 1 + word_len(s.skip(1)));
    }
}

fn ws_char(c: char) -> (r: bool)
    ensures
        r == is_ws(c),
{
    c == ' ' || c == '\t' || c == '\n' || c == '\u{000C}' || c == '\r'
}

/// The views of a vector of owned tokens.
pub open spec fn views_of(toks: Seq<String>) -> Seq<Seq<char>> {
    toks.map_values(|t: String| t@)
}

/// Split `s` into its whitespace-separated tokens.
pub(crate) fn tokenize_str(s: &str) -> (toks: Vec<String>)
    ensures
        views_of(toks@) == tokenize(s@),
{
    let n: usize = s.unicode_len();
    let mut toks: Vec<String> = Vec::new();
    let mut i: usize = 0;
    proof {
        assert(s@.skip(0) =~= s@);
        assert(views_of(Seq::<String>::empty()) =~= Seq::<Seq<char>>::empty());
        assert(views_of(toks@) + tokenize(s@.skip(0)) =~= tokenize(s@));
    }
    while i < n
        invariant
            i <= n,
            n == s@.len(),
            tokenize(s@) == views_of(toks@) + tokenize(s@.skip(i as int)),
        decreases n - i,
    {
        let c = s.get_char(i);
        if ws_char(c) {
            proof {
                assert(s@.skip(i as int)[0] == s@[i as int]);
                assert(s@.skip(i as int).skip(1) =~= s@.skip(i as int + 1));
            }
            i = i + 1;
        } else {
            let start: usize = i;
            i = i + 1;
            while i < n && !ws_char(s.get_char(i))
                invariant
                    start < i <= n,
                    n == s@.len(),
                    forall|j: int| start <= j < i ==> !is_ws(#[trigger] s@[j]),
                decreases n - i,
            {
                i = i + 1;
            }
            let token = s.substring_char(start, i);
            let owned: String = String::from_str(token);
            proof {
                let rest = s@.skip(start as int);
                assert forall|j: int| 0 <= j < i - start implies !is_ws(#[trigger] rest[j]) by {
                    assert(rest[j] == s@[start + j]);
                }
                lemma_word_len_le(rest, (i - start) as nat);
                lemma_word_len_bounds(rest);
                if word_len(rest) > i - start {
                    assert(!is_ws(rest[i - start]));
                    assert(rest[i - start] == s@[i as int]);
                    assert(i < n);
                    assert(false);
                }
                assert(word_len(rest) == i - start);
                assert(rest.take(i - start) =~= s@.subrange(start as int, i as int));
                assert(rest.skip(i - start) =~= s@.skip(i as int));
                assert(tokenize(rest) == seq![owned@] + tokenize(s@.skip(i as int)));
                assert(views_of(toks@.push(owned)) =~= views_of(toks@) + seq![owned@]);
                assert((views_of(toks@) + seq![owned@]) + tokenize(s@.skip(i as int))
                    =~= views_of(toks@) + (seq![owned@] + tokenize(s@.skip(i as int))));
            }
            toks.push(owned);
        }
    }
    proof {
        assert(s@.skip(n as int) =~= Seq::<char>::empty());
        assert(tokenize(Seq::<char>::empty()) =~= Seq::<Seq<char>>::empty());
        assert(views_of(toks@) + tokenize(s@.skip(n as int)) =~= views_of(toks@));
    }
    toks
}

} // verus!

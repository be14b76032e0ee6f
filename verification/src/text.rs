//! What byte strings mean: where a byte first and last occurs, and which
//! number a run of decimal digits stands for.

use vstd::prelude::*;

verus! {

/// `i` is the smallest index at which `s` holds `b`.
pub open spec fn first_at(s: Seq<u8>, b: u8, i: int) -> bool {
    &&& 0 <= i < s.len()
    &&& s[i] == b
    &&& forall|j: int| 0 <= j < i ==> s[j] != b
}

/// `i` is the largest index at which `s` holds `b`.
pub open spec fn last_at(s: Seq<u8>, b: u8, i: int) -> bool {
    &&& 0 <= i < s.len()
    &&& s[i] == b
    &&& forall|j: int| i < j < s.len() ==> s[j] != b
}

/// `s` does not hold `b`.
pub open spec fn absent(s: Seq<u8>, b: u8) -> bool {
    forall|j: int| 0 <= j < s.len() ==> s[j] != b
}

/// The index of the first `b` in `s`.
pub open spec fn first_index(s: Seq<u8>, b: u8) -> Option<int> {
    if exists|i: int| first_at(s, b, i) {
        Some(choose|i: int| first_at(s, b, i))
    } else {
        None
    }
}

/// The index of the last `b` in `s`.
pub open spec fn last_index(s: Seq<u8>, b: u8) -> Option<int> {
    if exists|i: int| last_at(s, b, i) {
        Some(choose|i: int| last_at(s, b, i))
    } else {
        None
    }
}

/// A first occurrence found by any means is the one that `first_index` names.
pub proof fn lemma_first_index(s: Seq<u8>, b: u8, found: Option<int>)
    requires
        match found {
            Some(i) => first_at(s, b, i),
            None => absent(s, b),
        },
    ensures
        first_index(s, b) == found,
{
    match found {
        Some(i) => {
            let c = choose|k: int| first_at(s, b, k);
            assert(first_at(s, b, c));
            assert(c == i) by {
                if c < i {
                    assert(s[c] != b);
                } else if i < c {
                    assert(s[i] != b);
                }
            }
        },
        None => {
            assert forall|k: int| !first_at(s, b, k) by {
                if 0 <= k < s.len() {
                    assert(s[k] != b);
                }
            }
        },
    }
}

/// A last occurrence found by any means is the one that `last_index` names.
pub proof fn lemma_last_index(s: Seq<u8>, b: u8, found: Option<int>)
    requires
        match found {
            Some(i) => last_at(s, b, i),
            None => absent(s, b),
        },
    ensures
        last_index(s, b) == found,
{
    match found {
        Some(i) => {
            let c = choose|k: int| last_at(s, b, k);
            assert(last_at(s, b, c));
            assert(c == i) by {
                if c < i {
                    assert(s[i] != b);
                } else if i < c {
                    assert(s[c] != b);
                }
            }
        },
        None => {
            assert forall|k: int| !last_at(s, b, k) by {
                if 0 <= k < s.len() {
                    assert(s[k] != b);
                }
            }
        },
    }
}

/// An ASCII decimal digit.
pub open spec fn is_digit(b: u8) -> bool {
    0x30 <= b <= 0x39
}

/// How many decimal digits `s` begins with.
pub open spec fn digit_run(s: Seq<u8>) -> nat
    decreases s.len(),
{
    if s.len() > 0 && is_digit(s[0]) {
        1 + digit_run(s.skip(1))
    } else {
        0
    }
}

/// The number that the digits of `s` spell, most significant first.
pub open spec fn decimal_value(s: Seq<u8>) -> nat
    decreases s.len(),
{
    if s.len() == 0 {
        0
    } else {
        decimal_value(s.drop_last()) * 10 + (s.last() - 0x30) as nat
    }
}

/// The digits of `n` in decimal, most significant first, without leading zeros.
pub open spec fn decimal_digits(n: nat) -> Seq<u8>
    decreases n,
{
    if n < 10 {
        seq![(0x30 + n) as u8]
    } else {
        decimal_digits(n / 10).push((0x30 + n % 10) as u8)
    }
}

/// 1 where `s` begins with a sign, else 0.
pub open spec fn sign_len(s: Seq<u8>) -> nat {
    if s.len() > 0 && (s[0] == 0x2b || s[0] == 0x2d) {
        1
    } else {
        0
    }
}

/// How many bytes the number at the start of `s` takes: an optional sign and
/// the digits behind it.
pub open spec fn number_len(s: Seq<u8>) -> nat {
    sign_len(s) + digit_run(s.skip(sign_len(s) as int))
}

/// The number at the start of `s`: the digits behind the optional sign,
/// negated under a minus. No digit at all stands for zero.
pub open spec fn number_value(s: Seq<u8>) -> int {
    let digits = s.subrange(sign_len(s) as int, number_len(s) as int);
    if s.len() > 0 && s[0] == 0x2d {
        -(decimal_value(digits) as int)
    } else {
        decimal_value(digits) as int
    }
}

/// The run of digits that `s` begins with lies within `s`.
pub proof fn lemma_digit_run_bound(s: Seq<u8>)
    ensures
        digit_run(s) <= s.len(),
    decreases s.len(),
{
    if s.len() > 0 && is_digit(s[0]) {
        lemma_digit_run_bound(s.skip(1));
    }
}

/// The number at the start of `s` lies within `s`.
pub proof fn lemma_number_len_bound(s: Seq<u8>)
    ensures
        number_len(s) <= s.len(),
{
    lemma_digit_run_bound(s.skip(sign_len(s) as int));
}

} // verus!

//! Indices as they are written: unsigned decimal integers.
//!
//! An index is an optional plus sign followed by one or more decimal digits,
//! and its value fits in a `usize`. Anything else is no index.

use vstd::prelude::*;
use crate::text::{is_decimal_digit, is_digit};

verus! {

/// The value of a decimal digit.
pub open spec fn digit_value(c: char) -> nat {
    (c as u32 - 0x30) as nat
}

/// Whether `s` holds decimal digits and nothing else.
pub open spec fn all_digits(s: Seq<char>) -> bool {
    forall|k: int| 0 <= k < s.len() ==> is_digit(#[trigger] s[k])
}

/// The number that the digits of `s` denote in base ten, the most significant
/// digit first. The empty sequence denotes zero.
pub open spec fn decimal_value(s: Seq<char>) -> nat
    decreases s.len(),
{
    if s.len() == 0 {
        0
    } else {
        decimal_value(s.drop_last()) * 10 + digit_value(s.last())
    }
}

/// `s` without a leading plus sign.
pub open spec fn unsigned_part(s: Seq<char>) -> Seq<char> {
    if s.len() > 0 && s[0] == '+' {
        s.skip(1)
    } else {
        s
    }
}

/// The index that `s` denotes, if it denotes one.
pub open spec fn index_of(s: Seq<char>) -> Option<usize> {
    let d = unsigned_part(s);
    if d.len() > 0 && all_digits(d) && decimal_value(d) <= usize::MAX {
        Some(decimal_value(d) as usize)
    } else {
        None
    }
}

/// More digits do not make a smaller number: every prefix of `s` denotes at
/// most what `s` denotes.
pub proof fn lemma_decimal_value_prefix(s: Seq<char>, n: int)
    requires
        0 <= n <= s.len(),
    ensures
        decimal_value(s.take(n)) <= decimal_value(s),
    decreases s.len() - n,
{
    if n == s.len() {
        assert(s.take(n) =~= s);
    } else {
        lemma_decimal_value_prefix(s.drop_last(), n);
        assert(s.drop_last().take(n) =~= s.take(n));
    }
}

/// Reads an index. `token` is taken whole.
pub fn parse_index(token: &[char]) -> (r: Option<usize>)
    ensures
        r == index_of(token@),
{
    let start: usize = if token.len() > 0 && token[0] == '+' {
        1
    } else {
        0
    };
    let ghost d = unsigned_part(token@);
    assert(d =~= token@.skip(start as int));
    if start == token.len() {
        return None;
    }
    let mut value: usize = 0;
    let mut i: usize = start;
    assert(d.take(0) =~= Seq::<char>::empty());
    while i < token.len()
        invariant
            start <= i <= token@.len(),
            d == unsigned_part(token@),
            d == token@.skip(start as int),
            all_digits(d.take(i - start)),
            value == decimal_value(d.take(i - start)),
        decreases token@.len() - i,
    {
        let c = token[i];
        assert(c == d[i - start]);
        if !is_decimal_digit(c) {
            return None;
        }
        let digit: usize = (c as u32 - 0x30) as usize;
        proof {
            let longer = d.take(i - start + 1);
            assert(longer.drop_last() =~= d.take(i - start));
            assert(longer.last() == c);
            assert(decimal_value(longer) == value * 10 + digit);
            assert(all_digits(longer));
            lemma_decimal_value_prefix(d, i - start + 1);
        }
        let shifted = match value.checked_mul(10) {
            Some(n) => n,
            None => {
                return None;
            },
        };
        value = match shifted.checked_add(digit) {
            Some(n) => n,
            None => {
                return None;
            },
        };
        i += 1;
    }
    assert(d.take(i - start) =~= d);
    Some(value)
}

} // verus!

//! Numbers as they are written.
//!
//! A coordinate is kept as the literal that denotes it. The grammar is that of
//! floating-point literals:
//!
//! ```text
//! Number   ::= Sign? ( Special | Decimal )
//! Special  ::= 'inf' | 'infinity' | 'nan'          (in any mix of cases)
//! Decimal  ::= ( Digit+ | Digit+ '.' Digit* | Digit* '.' Digit+ ) Exponent?
//! Exponent ::= ( 'e' | 'E' ) Sign? Digit+
//! Sign     ::= '+' | '-'
//! Digit    ::= '0' ... '9'
//! ```
//!
//! Which machine number a literal rounds to is not decided here.

use vstd::prelude::*;
use crate::text::{copy_range, digits_end, skip_digits};

verus! {

/// Whether `c` is a plus or a minus sign.
pub open spec fn is_sign(c: char) -> bool {
    c == '+' || c == '-'
}

/// `c`, in lower case if it is an ASCII capital letter.
pub open spec fn lower(c: char) -> char {
    if 0x41 <= c as u32 <= 0x5A {
        ((c as u32) + 0x20) as char
    } else {
        c
    }
}

/// `s` with every ASCII capital letter in lower case.
pub open spec fn lowercase(s: Seq<char>) -> Seq<char> {
    Seq::new(s.len(), |k: int| lower(s[k]))
}

/// Whether `s` names an infinity or a value that is not a number.
pub open spec fn is_special(s: Seq<char>) -> bool {
    ||| lowercase(s) == seq!['i', 'n', 'f']
    ||| lowercase(s) == seq!['i', 'n', 'f', 'i', 'n', 'i', 't', 'y']
    ||| lowercase(s) == seq!['n', 'a', 'n']
}

/// Whether `s` from position `i` to its end is an exponent: the letter `e`,
/// an optional sign, and one or more digits.
pub open spec fn is_exponent(s: Seq<char>, i: int) -> bool {
    let d = if i + 1 < s.len() && is_sign(s[i + 1]) {
        i + 2
    } else {
        i + 1
    };
    &&& 0 <= i < s.len()
    &&& (s[i] == 'e' || s[i] == 'E')
    &&& d < s.len()
    &&& digits_end(s, d) == s.len()
}

/// The position at which the mantissa that starts at `i` ends: behind the
/// digits, and behind one point and the digits after it, if a point follows.
pub open spec fn mantissa_end(s: Seq<char>, i: int) -> int {
    let a = digits_end(s, i);
    if 0 <= a < s.len() && s[a] == '.' {
        digits_end(s, a + 1)
    } else {
        a
    }
}

/// The number of digits in the mantissa that starts at `i`.
pub open spec fn mantissa_digits(s: Seq<char>, i: int) -> int {
    let a = digits_end(s, i);
    if 0 <= a < s.len() && s[a] == '.' {
        mantissa_end(s, i) - i - 1
    } else {
        a - i
    }
}

/// Whether `s` from position `i` to its end is a decimal number: a mantissa
/// with at least one digit, and then nothing or an exponent.
pub open spec fn is_decimal(s: Seq<char>, i: int) -> bool {
    &&& mantissa_digits(s, i) > 0
    &&& (mantissa_end(s, i) == s.len() || is_exponent(s, mantissa_end(s, i)))
}

/// The position at which the part behind an optional sign starts.
pub open spec fn sign_end(s: Seq<char>) -> int {
    if s.len() > 0 && is_sign(s[0]) {
        1
    } else {
        0
    }
}

/// Whether `s` is a number as the grammar of this module has it.
pub open spec fn is_number(s: Seq<char>) -> bool {
    is_decimal(s, sign_end(s)) || is_special(s.skip(sign_end(s)))
}

/// The literal that stands for one.
pub open spec fn one() -> Seq<char> {
    seq!['1', '.', '0']
}

/// The literal that stands for zero.
pub open spec fn zero() -> Seq<char> {
    seq!['0', '.', '0']
}

/// Whether `c` is `letter`, in either case. `letter` is a small ASCII letter.
fn is_letter(c: char, letter: char) -> (b: bool)
    requires
        0x61 <= letter as u32 <= 0x7A,
    ensures
        b == (lower(c) == letter),
{
    let n: u32 = c as u32;
    let folded: u32 = if 0x41 <= n && n <= 0x5A {
        n + 0x20
    } else {
        n
    };
    folded == letter as u32
}

/// Whether `s` from position `i` to its end names an infinity or a value that
/// is not a number.
fn special_at(s: &[char], i: usize) -> (b: bool)
    requires
        i <= s@.len(),
    ensures
        b == is_special(s@.skip(i as int)),
{
    let ghost rest = s@.skip(i as int);
    let ghost low = lowercase(rest);
    let n: usize = s.len() - i;
    if n == 3 {
        let inf = is_letter(s[i], 'i') && is_letter(s[i + 1], 'n') && is_letter(s[i + 2], 'f');
        let nan = is_letter(s[i], 'n') && is_letter(s[i + 1], 'a') && is_letter(s[i + 2], 'n');
        proof {
            assert(low[0] == lower(s@[i as int]));
            assert(low[1] == lower(s@[i + 1]));
            assert(low[2] == lower(s@[i + 2]));
            assert(inf ==> low =~= seq!['i', 'n', 'f']);
            assert(nan ==> low =~= seq!['n', 'a', 'n']);
            assert(seq!['i', 'n', 'f', 'i', 'n', 'i', 't', 'y'].len() == 8);
        }
        inf || nan
    } else if n == 8 {
        let b = is_letter(s[i], 'i') && is_letter(s[i + 1], 'n') && is_letter(s[i + 2], 'f')
            && is_letter(s[i + 3], 'i') && is_letter(s[i + 4], 'n') && is_letter(s[i + 5], 'i')
            && is_letter(s[i + 6], 't') && is_letter(s[i + 7], 'y');
        proof {
            assert(low[0] == lower(s@[i as int]));
            assert(low[1] == lower(s@[i + 1]));
            assert(low[2] == lower(s@[i + 2]));
            assert(low[3] == lower(s@[i + 3]));
            assert(low[4] == lower(s@[i + 4]));
            assert(low[5] == lower(s@[i + 5]));
            assert(low[6] == lower(s@[i + 6]));
            assert(low[7] == lower(s@[i + 7]));
            assert(b ==> low =~= seq!['i', 'n', 'f', 'i', 'n', 'i', 't', 'y']);
            assert(seq!['i', 'n', 'f'].len() == 3);
            assert(seq!['n', 'a', 'n'].len() == 3);
        }
        b
    } else {
        proof {
            assert(low.len() == n);
            assert(seq!['i', 'n', 'f'].len() == 3);
            assert(seq!['n', 'a', 'n'].len() == 3);
            assert(seq!['i', 'n', 'f', 'i', 'n', 'i', 't', 'y'].len() == 8);
        }
        false
    }
}

/// Whether `s` from position `i` to its end is an exponent.
fn exponent_at(s: &[char], i: usize) -> (b: bool)
    requires
        i < s@.len(),
    ensures
        b == is_exponent(s@, i as int),
{
    if s[i] != 'e' && s[i] != 'E' {
        return false;
    }
    let d: usize = if i + 1 < s.len() && (s[i + 1] == '+' || s[i + 1] == '-') {
        i + 2
    } else {
        i + 1
    };
    d < s.len() && skip_digits(s, d) == s.len()
}

/// Whether `s` from position `i` to its end is a decimal number.
fn decimal_at(s: &[char], i: usize) -> (b: bool)
    requires
        i <= s@.len(),
    ensures
        b == is_decimal(s@, i as int),
{
    let a: usize = skip_digits(s, i);
    let mut digits: usize = a - i;
    let mut end: usize = a;
    if a < s.len() && s[a] == '.' {
        end = skip_digits(s, a + 1);
        digits = end - i - 1;
    }
    digits > 0 && (end == s.len() || exponent_at(s, end))
}

/// Whether `s` is a number.
pub fn is_number_literal(s: &[char]) -> (b: bool)
    ensures
        b == is_number(s@),
{
    let i: usize = if s.len() > 0 && (s[0] == '+' || s[0] == '-') {
        1
    } else {
        0
    };
    decimal_at(s, i) || special_at(s, i)
}

/// A number, kept as the literal that denotes it.
#[derive(Debug, PartialEq, Eq)]
pub struct Scalar {
    literal: Vec<char>,
}

impl View for Scalar {
    type V = Seq<char>;

    closed spec fn view(&self) -> Seq<char> {
        self.literal@
    }
}

impl Clone for Scalar {
    fn clone(&self) -> (r: Scalar)
        ensures
            r@ == self@,
    {
        proof {
            use_type_invariant(self);
        }
        let literal = copy_range(self.literal.as_slice(), 0, self.literal.len());
        assert(literal@ =~= self.literal@);
        Scalar { literal }
    }
}

impl Scalar {
    #[verifier::type_invariant]
    spec fn well_formed(&self) -> bool {
        is_number(self.literal@)
    }

    /// Reads a number. `token` is taken whole: there is a result if and only
    /// if all of it is a number, and then the result is that literal.
    pub fn parse(token: &[char]) -> (r: Option<Scalar>)
        ensures
            r is Some <==> is_number(token@),
            r is Some ==> r->0@ == token@,
    {
        if is_number_literal(token) {
            let literal = copy_range(token, 0, token.len());
            assert(literal@ =~= token@);
            Some(Scalar { literal })
        } else {
            None
        }
    }

    /// The number one.
    pub fn one() -> (r: Scalar)
        ensures
            r@ == one(),
    {
        let literal: Vec<char> = vec!['1', '.', '0'];
        proof {
            lemma_defaults_are_numbers();
            assert(literal@ =~= one());
        }
        Scalar { literal }
    }

    /// The number zero.
    pub fn zero() -> (r: Scalar)
        ensures
            r@ == zero(),
    {
        let literal: Vec<char> = vec!['0', '.', '0'];
        proof {
            lemma_defaults_are_numbers();
            assert(literal@ =~= zero());
        }
        Scalar { literal }
    }

    /// The characters of the literal. They form a number.
    pub fn chars(&self) -> (r: &Vec<char>)
        ensures
            r@ == self@,
            is_number(r@),
    {
        proof {
            use_type_invariant(self);
        }
        &self.literal
    }
}

/// The two literals that stand in for a coordinate that was left out are
/// numbers.
pub proof fn lemma_defaults_are_numbers()
    ensures
        is_number(one()),
        is_number(zero()),
{
    reveal_with_fuel(digits_end, 3);
    let s = one();
    assert(digits_end(s, 0) == 1);
    assert(digits_end(s, 2) == 3);
    let z = zero();
    assert(digits_end(z, 0) == 1);
    assert(digits_end(z, 2) == 3);
}

} // verus!

//! Decimal integers written as text.

use vstd::prelude::*;
use crate::error::CalcError;

verus! {

/// Whether `c` is one of the ten ASCII decimal digits.
pub open spec fn is_digit(c: char) -> bool {
    '0' <= c && c <= '9'
}

/// The number that the digit `c` stands for; zero for any other character.
pub open spec fn digit_value(c: char) -> nat {
    if is_digit(c) {
        (c as int - '0' as int) as nat
    } else {
        0
    }
}

/// Whether every character of `s` is a decimal digit.
pub open spec fn all_digits(s: Seq<char>) -> bool {
    forall|i: int| 0 <= i < s.len() ==> is_digit(#[trigger] s[i])
}

/// The natural number that the digits of `s` write in base ten, most
/// significant digit first. The empty string writes zero.
pub open spec fn digits_value(s: Seq<char>) -> nat
    decreases s.len(),
{
    if s.len() == 0 {
        0
    } else {
        10 * digits_value(s.drop_last()) + digit_value(s.last())
    }
}

/// Whether `s` begins with `+` or `-`.
pub open spec fn has_sign(s: Seq<char>) -> bool {
    s.len() > 0 && (s[0] == '+' || s[0] == '-')
}

/// What is left of `s` once a leading sign is taken off.
pub open spec fn unsigned_part(s: Seq<char>) -> Seq<char> {
    if has_sign(s) {
        s.skip(1)
    } else {
        s
    }
}

/// Whether `s` writes an integer: an optional sign, then one digit or more.
pub open spec fn is_integer_literal(s: Seq<char>) -> bool {
    unsigned_part(s).len() > 0 && all_digits(unsigned_part(s))
}

/// The integer that the literal `s` writes.
pub open spec fn literal_value(s: Seq<char>) -> int {
    if s.len() > 0 && s[0] == '-' {
        -(digits_value(unsigned_part(s)) as int)
    } else {
        digits_value(unsigned_part(s)) as int
    }
}

/// What reading `s` as a 32-bit signed integer gives: its value where `s`
/// is an integer literal within range, `EmptyInput` where `s` is empty, and
/// `NumericParseError` otherwise.
pub open spec fn spec_parse_i32(s: Seq<char>) -> Result<i32, CalcError> {
    if s.len() == 0 {
        Err(CalcError::EmptyInput)
    } else if is_integer_literal(s) && i32::MIN <= literal_value(s) <= i32::MAX {
        Ok(literal_value(s) as i32)
    } else {
        Err(CalcError::NumericParseError)
    }
}

/// A digit string is worth at least as much as any of its prefixes.
pub proof fn lemma_digits_value_prefix(s: Seq<char>, k: int)
    requires
        0 <= k <= s.len(),
    ensures
        digits_value(s.take(k)) <= digits_value(s),
    decreases s.len(),
{
    if k == s.len() {
        assert(s.take(k) =~= s);
    } else {
        assert(s.drop_last().take(k) =~= s.take(k));
        lemma_digits_value_prefix(s.drop_last(), k);
    }
}

/// Whether `c` is a decimal digit.
pub fn is_decimal_digit(c: char) -> (b: bool)
    ensures
        b == is_digit(c),
{
    '0' <= c && c <= '9'
}

/// Reads `text` as a 32-bit signed integer in base ten.
pub fn parse_i32(text: &[char]) -> (r: Result<i32, CalcError>)
    ensures
        r == spec_parse_i32(text@),
{
    let n = text.len();
    if n == 0 {
        return Err(CalcError::EmptyInput);
    }
    let negative = text[0] == '-';
    let start: usize = if negative || text[0] == '+' { 1 } else { 0 };
    if start == n {
        return Err(CalcError::NumericParseError);
    }
    let ghost body = unsigned_part(text@);
    let mut magnitude: i64 = 0;
    let mut i: usize = start;
    while i < n
        invariant
            n == text.len(),
            start <= i <= n,
            start == if has_sign(text@) { 1int } else { 0int },
            body == unsigned_part(text@),
            all_digits(body.take(i - start)),
            magnitude == digits_value(body.take(i - start)),
            magnitude <= 0x8000_0000,
        decreases n - i,
    {
        let c = text[i];
        if !is_decimal_digit(c) {
            assert(!is_digit(body[i - start]));
            return Err(CalcError::NumericParseError);
        }
        let digit: i64 = (c as u32 - '0' as u32) as i64;
        magnitude = magnitude * 10 + digit;
        proof {
            let prefix = body.take(i + 1 - start);
            assert(prefix.drop_last() =~= body.take(i - start));
            assert(prefix.last() == c);
            lemma_digits_value_prefix(body, i + 1 - start);
        }
        if magnitude > 0x8000_0000 {
            return Err(CalcError::NumericParseError);
        }
        i += 1;
    }
    assert(body.take(i - start) =~= body);
    if negative {
        Ok((-magnitude) as i32)
    } else if magnitude > 0x7fff_ffff {
        Err(CalcError::NumericParseError)
    } else {
        Ok(magnitude as i32)
    }
}

} // verus!

//! Left-to-right evaluation of expressions made of digits, `+` and `-`.
//!
//! An expression is scanned once, character by character. Digits gather in a
//! buffer; an operator closes the number in the buffer, applies the operator
//! that was pending to it, and becomes the pending operator itself. There is
//! no precedence and there are no parentheses. Every other character,
//! whitespace included, is passed over.
//!
//! At the end the scan holds two counts to each other: the operators applied
//! must be one less than the digits seen. The second count goes up with every
//! digit character, not with every number, so `1 + 2 - 3` is accepted and
//! `12 + 3` is refused. An expression without any digit is refused on the
//! same ground, before its empty last number is looked at.

use vstd::prelude::*;
use crate::error::CalcError;
use crate::number::{
    all_digits, digit_value, digits_value, is_decimal_digit, is_digit, parse_i32, spec_parse_i32,
};
use crate::range::{narrow, narrow_to_i32};
use crate::text::chars_of;

verus! {

/// One of the two operators of an expression.
#[derive(Clone, Copy, Debug, PartialEq, Eq, Structural)]
pub enum Operator {
    Plus,
    Minus,
}

impl Operator {
    /// The operator that `c` writes, if it writes one.
    pub open spec fn spec_from_char(c: char) -> Option<Operator> {
        if c == '+' {
            Some(Operator::Plus)
        } else if c == '-' {
            Some(Operator::Minus)
        } else {
            None
        }
    }

    /// The character that writes this operator.
    pub open spec fn symbol(self) -> char {
        match self {
            Operator::Plus => '+',
            Operator::Minus => '-',
        }
    }

    /// The running total `total` after this operator is applied to `number`.
    pub open spec fn apply(self, total: int, number: int) -> int {
        match self {
            Operator::Plus => total + number,
            Operator::Minus => total - number,
        }
    }

    /// The operator that `c` writes, if it writes one.
    pub fn from_char(c: char) -> (r: Option<Operator>)
        ensures
            r == Self::spec_from_char(c),
    {
        if c == '+' {
            Some(Operator::Plus)
        } else if c == '-' {
            Some(Operator::Minus)
        } else {
            None
        }
    }
}

/// What a scan has gathered from the characters it has read.
pub struct Scan {
    /// The running total of the numbers closed so far.
    pub total: int,
    /// The operator that the next number will be applied with.
    pub pending: Operator,
    /// The digits of the number being built.
    pub digits: Seq<char>,
    /// How many digit characters were read. A number of several digits
    /// counts once for each of them.
    pub numbers_seen: nat,
    /// How many times an operator was applied to a closed number.
    pub ops_applied: nat,
}

impl Scan {
    /// The scan before any character: a total of zero, `+` pending.
    pub open spec fn start() -> Scan {
        Scan {
            total: 0,
            pending: Operator::Plus,
            digits: Seq::empty(),
            numbers_seen: 0,
            ops_applied: 0,
        }
    }

    /// The scan after closing the number in the buffer before the operator
    /// `next`, or the error from reading that number.
    pub open spec fn close_number(self, next: Operator) -> Result<Scan, CalcError> {
        match spec_parse_i32(self.digits) {
            Ok(number) => Ok(
                Scan {
                    total: self.pending.apply(self.total, number as int),
                    pending: next,
                    digits: Seq::empty(),
                    numbers_seen: self.numbers_seen,
                    ops_applied: self.ops_applied + 1,
                },
            ),
            Err(e) => Err(e),
        }
    }

    /// The scan after the character `c`, or the error that `c` brings up.
    ///
    /// A digit joins the buffer and is counted. An operator closes the
    /// number in the buffer, if there is one, and becomes the pending
    /// operator; with an empty buffer it only replaces the pending operator,
    /// so of several operators in a row the last one counts. Any other
    /// character changes nothing.
    pub open spec fn step(self, c: char) -> Result<Scan, CalcError> {
        if is_digit(c) {
            Ok(Scan { digits: self.digits.push(c), numbers_seen: self.numbers_seen + 1, ..self })
        } else {
            match Operator::spec_from_char(c) {
                Some(next) => if self.digits.len() == 0 {
                    Ok(Scan { pending: next, ..self })
                } else {
                    self.close_number(next)
                },
                None => Ok(self),
            }
        }
    }

    /// Whether the counts agree: one operator applied less than digits seen.
    /// Where no digit was seen the counts are zero and zero, which do not
    /// agree.
    pub open spec fn balanced(self) -> bool {
        self.ops_applied == self.numbers_seen - 1
    }

    /// The value of the expression once all of it is scanned: where the
    /// counts agree, the pending operator applied to the number left in the
    /// buffer. Unbalanced counts give `StructuralMismatch`; after that an
    /// empty buffer gives `EmptyInput`, and a number out of range
    /// `NumericParseError`.
    pub open spec fn finish(self) -> Result<int, CalcError> {
        if !self.balanced() {
            Err(CalcError::StructuralMismatch)
        } else {
            match spec_parse_i32(self.digits) {
                Ok(number) => Ok(self.pending.apply(self.total, number as int)),
                Err(e) => Err(e),
            }
        }
    }
}

/// The scan of all of `s`, or the first error on the way.
pub open spec fn scan(s: Seq<char>) -> Result<Scan, CalcError>
    decreases s.len(),
{
    if s.len() == 0 {
        Ok(Scan::start())
    } else {
        match scan(s.drop_last()) {
            Ok(state) => state.step(s.last()),
            Err(e) => Err(e),
        }
    }
}

/// The exact value of the expression `s`, or the error that stops its
/// evaluation.
pub open spec fn value(s: Seq<char>) -> Result<int, CalcError> {
    match scan(s) {
        Ok(state) => state.finish(),
        Err(e) => Err(e),
    }
}

/// What evaluating the expression `s` gives: its value where that lies in
/// the 32-bit signed range, `Overflow` where it does not, and otherwise the
/// error that stops the evaluation.
pub open spec fn spec_evaluate(s: Seq<char>) -> Result<i32, CalcError> {
    match value(s) {
        Ok(v) => narrow(v),
        Err(e) => Err(e),
    }
}

/// An operator and the digit that follows it.
pub struct Term {
    pub operator: Operator,
    pub digit: char,
}

/// The expression that writes the digit `first` and then each of `rest`, as
/// its operator followed by its digit.
pub open spec fn infix(first: char, rest: Seq<Term>) -> Seq<char>
    decreases rest.len(),
{
    if rest.len() == 0 {
        seq![first]
    } else {
        infix(first, rest.drop_last()).push(rest.last().operator.symbol()).push(rest.last().digit)
    }
}

/// What the digit `first` comes to once each of `rest` is applied to it in
/// turn.
pub open spec fn infix_value(first: char, rest: Seq<Term>) -> int
    decreases rest.len(),
{
    if rest.len() == 0 {
        digit_value(first) as int
    } else {
        rest.last().operator.apply(
            infix_value(first, rest.drop_last()),
            digit_value(rest.last().digit) as int,
        )
    }
}

/// An error stops the scan: once a prefix of `s` fails, `s` fails with the
/// same error.
pub proof fn lemma_scan_error_stays(s: Seq<char>, k: int)
    requires
        0 <= k <= s.len(),
        scan(s.take(k)) is Err,
    ensures
        scan(s) == scan(s.take(k)),
    decreases s.len(),
{
    if k == s.len() {
        assert(s.take(k) =~= s);
    } else {
        assert(s.drop_last().take(k) =~= s.take(k));
        lemma_scan_error_stays(s.drop_last(), k);
    }
}

/// Scanning digits alone gathers all of them in the buffer, counts each of
/// them, and applies nothing.
pub proof fn lemma_scan_of_digits(s: Seq<char>)
    requires
        all_digits(s),
    ensures
        scan(s) == Ok::<Scan, CalcError>(
            Scan { digits: s, numbers_seen: s.len(), ..Scan::start() },
        ),
    decreases s.len(),
{
    if s.len() == 0 {
        assert(s =~= Seq::<char>::empty());
    } else {
        lemma_scan_of_digits(s.drop_last());
        assert(s.drop_last().push(s.last()) =~= s);
    }
}

/// A bare number of one digit evaluates to the number it writes.
pub proof fn lemma_single_digit_evaluates_to_itself(s: Seq<char>)
    requires
        all_digits(s),
        s.len() == 1,
    ensures
        spec_evaluate(s) == Ok::<i32, CalcError>(digits_value(s) as i32),
{
    lemma_scan_of_digits(s);
    assert(s.drop_last() =~= Seq::<char>::empty());
    assert(digits_value(s) == digit_value(s[0])) by {
        reveal_with_fuel(digits_value, 2);
    }
}

/// A bare number of two digits or more is refused: each of its digits is
/// counted as a number, and no operator was applied.
pub proof fn lemma_bare_number_of_several_digits_is_refused(s: Seq<char>)
    requires
        all_digits(s),
        s.len() >= 2,
    ensures
        spec_evaluate(s) == Err::<i32, CalcError>(CalcError::StructuralMismatch),
{
    lemma_scan_of_digits(s);
}

/// A single digit parses to the number it stands for.
proof fn lemma_parse_of_one_digit(d: char)
    requires
        is_digit(d),
    ensures
        spec_parse_i32(seq![d]) == Ok::<i32, CalcError>(digit_value(d) as i32),
{
    let s = seq![d];
    assert(s.drop_last() =~= Seq::<char>::empty());
    assert(digits_value(s) == digit_value(d)) by {
        reveal_with_fuel(digits_value, 2);
    }
}

/// The scan of an expression of single digits joined by operators: the last
/// digit waits in the buffer for the last operator, and all before it is in
/// the total.
proof fn lemma_scan_of_infix(first: char, rest: Seq<Term>)
    requires
        is_digit(first),
        forall|i: int| 0 <= i < rest.len() ==> is_digit(#[trigger] rest[i].digit),
    ensures
        scan(infix(first, rest)) == Ok::<Scan, CalcError>(
            if rest.len() == 0 {
                Scan { digits: seq![first], numbers_seen: 1, ..Scan::start() }
            } else {
                Scan {
                    total: infix_value(first, rest.drop_last()),
                    pending: rest.last().operator,
                    digits: seq![rest.last().digit],
                    numbers_seen: rest.len() + 1,
                    ops_applied: rest.len(),
                }
            },
        ),
    decreases rest.len(),
{
    if rest.len() == 0 {
        lemma_scan_of_digits(seq![first]);
    } else {
        let before = rest.drop_last();
        let text = infix(first, before);
        let symbol = rest.last().operator.symbol();
        let digit = rest.last().digit;
        lemma_scan_of_infix(first, before);
        if before.len() == 0 {
            lemma_parse_of_one_digit(first);
        } else {
            lemma_parse_of_one_digit(before.last().digit);
        }
        assert(text.push(symbol).drop_last() =~= text);
        assert(text.push(symbol).push(digit).drop_last() =~= text.push(symbol));
        assert(Seq::<char>::empty().push(digit) =~= seq![digit]);
        let closed = scan(text)->Ok_0.step(symbol);
        assert(scan(text.push(symbol)) == closed);
        assert(scan(infix(first, rest)) == closed->Ok_0.step(digit));
    }
}

/// Single digits joined by operators are worked off from left to right: the
/// expression evaluates to what its first digit comes to once each operator
/// is applied in turn to the digit after it.
pub proof fn lemma_infix_evaluates_left_to_right(first: char, rest: Seq<Term>)
    requires
        is_digit(first),
        forall|i: int| 0 <= i < rest.len() ==> is_digit(#[trigger] rest[i].digit),
    ensures
        spec_evaluate(infix(first, rest)) == narrow(infix_value(first, rest)),
{
    lemma_scan_of_infix(first, rest);
    if rest.len() == 0 {
        lemma_parse_of_one_digit(first);
    } else {
        lemma_parse_of_one_digit(rest.last().digit);
    }
}

/// Of two operators in a row, the second one counts: where the scan of `s`
/// has no number in its buffer, an operator `a` that is followed by an
/// operator `b` changes nothing.
pub proof fn lemma_last_operator_wins(s: Seq<char>, a: char, b: char)
    requires
        Operator::spec_from_char(a) is Some,
        Operator::spec_from_char(b) is Some,
        scan(s) matches Ok(state) && state.digits.len() == 0,
    ensures
        scan(s.push(a).push(b)) == scan(s.push(b)),
{
    let state = scan(s)->Ok_0;
    assert(s.push(a).drop_last() =~= s);
    assert(s.push(b).drop_last() =~= s);
    assert(s.push(a).push(b).drop_last() =~= s.push(a));
    assert(scan(s.push(a)) == state.step(a));
    assert(scan(s.push(b)) == state.step(b));
    assert(scan(s.push(a).push(b)) == state.step(a)->Ok_0.step(b));
}

/// A character that is neither a digit nor an operator is passed over,
/// wherever it stands: the text evaluates as it does without it.
pub proof fn lemma_other_characters_are_passed_over(before: Seq<char>, c: char, after: Seq<char>)
    requires
        !is_digit(c),
        Operator::spec_from_char(c) is None,
    ensures
        scan(before.push(c) + after) == scan(before + after),
        spec_evaluate(before.push(c) + after) == spec_evaluate(before + after),
    decreases after.len(),
{
    if after.len() == 0 {
        assert(before.push(c) + after =~= before.push(c));
        assert(before + after =~= before);
        assert(before.push(c).drop_last() =~= before);
    } else {
        lemma_other_characters_are_passed_over(before, c, after.drop_last());
        assert((before.push(c) + after).drop_last() =~= before.push(c) + after.drop_last());
        assert((before + after).drop_last() =~= before + after.drop_last());
    }
}

/// Evaluation keeps no memory: whatever two evaluations of one text return,
/// it is the same.
pub proof fn lemma_evaluate_is_repeatable(
    text: Seq<char>,
    first: Result<i32, CalcError>,
    second: Result<i32, CalcError>,
)
    requires
        first == spec_evaluate(text),
        second == spec_evaluate(text),
    ensures
        first == second,
{
}

/// Evaluates `expr` from left to right.
///
/// The scan stops with `NumericParseError` at an operator that closes a
/// number outside the 32-bit signed range. A scan that reaches the end gives
/// `StructuralMismatch` unless one operator less was applied than digits were
/// seen, then `EmptyInput` where no digit follows the last operator, and
/// `Overflow` where the value lies outside the 32-bit signed range.
pub fn evaluate(expr: &str) -> (r: Result<i32, CalcError>)
    ensures
        r == spec_evaluate(expr@),
        scan(expr@) matches Ok(state) && !state.balanced() ==> r == Err::<i32, CalcError>(
            CalcError::StructuralMismatch,
        ),
{
    let chars = chars_of(expr);
    let n = chars.len();
    let mut total: i128 = 0;
    let mut pending = Operator::Plus;
    let mut digits: Vec<char> = Vec::new();
    let mut numbers_seen: usize = 0;
    let mut ops_applied: usize = 0;
    let mut i: usize = 0;
    assert(chars@.take(0) =~= Seq::<char>::empty());
    while i < n
        invariant
            n == chars.len(),
            chars@ == expr@,
            i <= n,
            scan(chars@.take(i as int)) == Ok::<Scan, CalcError>(
                Scan {
                    total: total as int,
                    pending,
                    digits: digits@,
                    numbers_seen: numbers_seen as nat,
                    ops_applied: ops_applied as nat,
                },
            ),
            numbers_seen <= i,
            ops_applied <= i,
            -0x8000_0000 * ops_applied <= total <= 0x8000_0000 * ops_applied,
        decreases n - i,
    {
        let c = chars[i];
        assert(chars@.take(i + 1).drop_last() =~= chars@.take(i as int));
        if is_decimal_digit(c) {
            digits.push(c);
            numbers_seen += 1;
        } else {
            match Operator::from_char(c) {
                Some(next) => {
                    if digits.len() > 0 {
                        match parse_i32(digits.as_slice()) {
                            Ok(number) => {
                                total = match pending {
                                    Operator::Plus => total + number as i128,
                                    Operator::Minus => total - number as i128,
                                };
                                ops_applied += 1;
                                digits.clear();
                            },
                            Err(e) => {
                                proof {
                                    lemma_scan_error_stays(chars@, i + 1);
                                }
                                return Err(e);
                            },
                        }
                    }
                    pending = next;
                },
                None => {},
            }
        }
        i += 1;
    }
    assert(chars@.take(n as int) =~= chars@);
    if numbers_seen == 0 || ops_applied != numbers_seen - 1 {
        return Err(CalcError::StructuralMismatch);
    }
    match parse_i32(digits.as_slice()) {
        Ok(number) => {
            let result = match pending {
                Operator::Plus => total + number as i128,
                Operator::Minus => total - number as i128,
            };
            narrow_to_i32(result)
        },
        Err(e) => Err(e),
    }
}

} // verus!

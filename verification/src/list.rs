//! Lists of integers written as whitespace-separated text, their sum and
//! their difference.

use vstd::prelude::*;
use vstd::slice::slice_subrange;
use crate::error::CalcError;
use crate::number::{parse_i32, spec_parse_i32};
use crate::range::{narrow, narrow_to_i32};
use crate::text::chars_of;

verus! {

/// Whether `c` is ASCII whitespace: space, tab, line feed, form feed or
/// carriage return.
pub open spec fn is_whitespace(c: char) -> bool {
    c == ' ' || c == '\t' || c == '\n' || c == '\x0C' || c == '\r'
}

/// The length of the longest prefix of `s` that holds no whitespace.
pub open spec fn word_len(s: Seq<char>) -> nat
    decreases s.len(),
{
    if s.len() == 0 || is_whitespace(s[0]) {
        0
    } else {
        1 + word_len(s.skip(1))
    }
}

/// The word at the head of `s` ends within `s`, holds no whitespace, and is
/// followed by whitespace or by the end of `s`.
pub proof fn lemma_word_len(s: Seq<char>)
    ensures
        word_len(s) <= s.len(),
        forall|i: int| 0 <= i < word_len(s) ==> !is_whitespace(#[trigger] s[i]),
        word_len(s) < s.len() ==> is_whitespace(s[word_len(s) as int]),
    decreases s.len(),
{
    if s.len() > 0 && !is_whitespace(s[0]) {
        lemma_word_len(s.skip(1));
        assert forall|i: int| 0 <= i < word_len(s) implies !is_whitespace(#[trigger] s[i]) by {
            if i > 0 {
                assert(s[i] == s.skip(1)[i - 1]);
            }
        }
    }
}

/// The tokens of `s`: its maximal runs of characters that are not whitespace,
/// in order. Whitespace before, between and after them is dropped.
pub open spec fn tokens(s: Seq<char>) -> Seq<Seq<char>>
    decreases s.len(),
    via tokens_decreases
{
    if s.len() == 0 {
        Seq::empty()
    } else if is_whitespace(s[0]) {
        tokens(s.skip(1))
    } else {
        seq![s.take(word_len(s) as int)] + tokens(s.skip(word_len(s) as int))
    }
}

#[via_fn]
proof fn tokens_decreases(s: Seq<char>) {
    lemma_word_len(s);
}

/// Whether `t` is a word: at least one character, and no whitespace.
pub open spec fn is_word(t: Seq<char>) -> bool {
    t.len() > 0 && forall|j: int| 0 <= j < t.len() ==> !is_whitespace(#[trigger] t[j])
}

/// Every token is a word.
pub proof fn lemma_tokens_are_words(s: Seq<char>)
    ensures
        forall|i: int| 0 <= i < tokens(s).len() ==> is_word(#[trigger] tokens(s)[i]),
    decreases s.len(),
{
    if s.len() == 0 {
        assert(tokens(s).len() == 0);
    } else if is_whitespace(s[0]) {
        lemma_tokens_are_words(s.skip(1));
        assert(tokens(s) == tokens(s.skip(1)));
    } else {
        let n = word_len(s) as int;
        lemma_word_len(s);
        lemma_tokens_are_words(s.skip(n));
        assert forall|i: int| 0 <= i < tokens(s).len() implies is_word(
            #[trigger] tokens(s)[i],
        ) by {
            if i == 0 {
                assert(tokens(s)[0] == s.take(n));
                assert forall|j: int| 0 <= j < n implies !is_whitespace(
                    #[trigger] s.take(n)[j],
                ) by {
                    assert(s.take(n)[j] == s[j]);
                }
            } else {
                assert(tokens(s)[i] == tokens(s.skip(n))[i - 1]);
            }
        }
    }
}

/// Whether each of the tokens `ts` writes a 32-bit signed integer.
pub open spec fn all_parse(ts: Seq<Seq<char>>) -> bool {
    forall|i: int| 0 <= i < ts.len() ==> (#[trigger] spec_parse_i32(ts[i])) is Ok
}

/// The integers that the tokens `ts` write, in order.
pub open spec fn parsed(ts: Seq<Seq<char>>) -> Seq<i32> {
    Seq::new(
        ts.len(),
        |i: int|
            match spec_parse_i32(ts[i]) {
                Ok(value) => value,
                Err(_) => 0,
            },
    )
}

/// What reading `s` as a list of integers gives: the integers that its
/// tokens write, in order, or `NumericParseError` where some token writes
/// none.
pub open spec fn spec_string_to_numbers(s: Seq<char>) -> Result<Seq<i32>, CalcError> {
    if all_parse(tokens(s)) {
        Ok(parsed(tokens(s)))
    } else {
        Err(CalcError::NumericParseError)
    }
}

/// The sum of the elements of `s`.
pub open spec fn sum(s: Seq<i32>) -> int
    decreases s.len(),
{
    if s.len() == 0 {
        0
    } else {
        sum(s.drop_last()) + s.last()
    }
}

/// The first element of `s` minus each of the others in turn.
pub open spec fn difference(s: Seq<i32>) -> int
    recommends
        s.len() > 0,
    decreases s.len(),
{
    if s.len() == 0 {
        0
    } else if s.len() == 1 {
        s[0] as int
    } else {
        difference(s.drop_last()) - s.last()
    }
}

/// The difference of a list that is not empty is its first element minus
/// the sum of the others.
pub proof fn lemma_difference_is_first_minus_sum_of_rest(s: Seq<i32>)
    requires
        s.len() > 0,
    ensures
        difference(s) == s[0] - sum(s.skip(1)),
    decreases s.len(),
{
    if s.len() == 1 {
        assert(s.skip(1) =~= Seq::<i32>::empty());
    } else {
        lemma_difference_is_first_minus_sum_of_rest(s.drop_last());
        assert(s.drop_last().skip(1) =~= s.skip(1).drop_last());
    }
}

/// What adding the list written in `text` gives: the sum of its numbers
/// where they all parse and the sum lies in the 32-bit signed range.
pub open spec fn spec_add_list(text: Seq<char>) -> Result<i32, CalcError> {
    match spec_string_to_numbers(text) {
        Ok(list) => narrow(sum(list)),
        Err(e) => Err(e),
    }
}

/// What subtracting the list written in `text` gives: its first number
/// minus each of the others where they all parse and the difference lies in
/// the 32-bit signed range. A list without numbers gives `EmptyInput`.
pub open spec fn spec_sub_list(text: Seq<char>) -> Result<i32, CalcError> {
    match spec_string_to_numbers(text) {
        Ok(list) => if list.len() == 0 {
            Err(CalcError::EmptyInput)
        } else {
            narrow(difference(list))
        },
        Err(e) => Err(e),
    }
}

/// Reading a list keeps no memory: whatever two readings of one text
/// return, it is the same.
pub proof fn lemma_string_to_numbers_is_repeatable(
    text: Seq<char>,
    first: Result<Seq<i32>, CalcError>,
    second: Result<Seq<i32>, CalcError>,
)
    requires
        first == spec_string_to_numbers(text),
        second == spec_string_to_numbers(text),
    ensures
        first == second,
{
}

/// Whether `c` is ASCII whitespace.
pub fn is_ascii_space(c: char) -> (b: bool)
    ensures
        b == is_whitespace(c),
{
    c == ' ' || c == '\t' || c == '\n' || c == '\x0C' || c == '\r'
}

/// The index at which the word that starts at `start` ends.
fn word_end(chars: &[char], start: usize) -> (end: usize)
    requires
        start <= chars.len(),
    ensures
        end == start + word_len(chars@.skip(start as int)),
        end <= chars.len(),
{
    let n = chars.len();
    let mut end: usize = start;
    while end < n && !is_ascii_space(chars[end])
        invariant
            n == chars.len(),
            start <= end <= n,
            word_len(chars@.skip(start as int)) == (end - start) + word_len(
                chars@.skip(end as int),
            ),
        decreases n - end,
    {
        assert(chars@.skip(end as int).skip(1) =~= chars@.skip(end + 1));
        end += 1;
    }
    end
}

/// Reads `numbers` as a list of 32-bit signed integers separated by ASCII
/// whitespace. A text without tokens gives the empty list; a token that
/// writes no such integer gives `NumericParseError`.
pub fn string_to_numbers(numbers: String) -> (r: Result<Vec<i32>, CalcError>)
    ensures
        match r {
            Ok(list) => spec_string_to_numbers(numbers@) == Ok::<Seq<i32>, CalcError>(list@),
            Err(e) => spec_string_to_numbers(numbers@) == Err::<Seq<i32>, CalcError>(e),
        },
{
    let chars = chars_of(numbers.as_str());
    let n = chars.len();
    let mut list: Vec<i32> = Vec::new();
    let mut i: usize = 0;
    let ghost mut done: Seq<Seq<char>> = Seq::empty();
    assert(chars@.skip(0) =~= chars@);
    while i < n
        invariant
            n == chars.len(),
            chars@ == numbers@,
            i <= n,
            tokens(chars@) == done + tokens(chars@.skip(i as int)),
            all_parse(done),
            list@ == parsed(done),
        decreases n - i,
    {
        let ghost rest = chars@.skip(i as int);
        if is_ascii_space(chars[i]) {
            assert(rest.skip(1) =~= chars@.skip(i + 1));
            i += 1;
        } else {
            let end = word_end(chars.as_slice(), i);
            let token = slice_subrange(chars.as_slice(), i, end);
            proof {
                assert(token@ =~= rest.take(word_len(rest) as int));
                assert(rest.skip(word_len(rest) as int) =~= chars@.skip(end as int));
                assert(tokens(chars@) =~= done.push(token@) + tokens(chars@.skip(end as int)));
            }
            match parse_i32(token) {
                Ok(value) => {
                    list.push(value);
                    proof {
                        done = done.push(token@);
                        assert(list@ =~= parsed(done));
                    }
                },
                Err(e) => {
                    assert(!(spec_parse_i32(tokens(chars@)[done.len() as int]) is Ok));
                    return Err(e);
                },
            }
            i = end;
        }
    }
    assert(tokens(chars@) =~= done);
    Ok(list)
}

/// The sum of `numbers`, where it lies in the 32-bit signed range, and
/// `Overflow` where it does not. Only the sum counts, not the sums on the way
/// to it.
pub fn sum_numbers(numbers: &[i32]) -> (r: Result<i32, CalcError>)
    ensures
        r == narrow(sum(numbers@)),
{
    let n = numbers.len();
    let mut total: i128 = 0;
    let mut i: usize = 0;
    while i < n
        invariant
            n == numbers.len(),
            i <= n,
            total == sum(numbers@.take(i as int)),
            -0x8000_0000 * i <= total <= 0x8000_0000 * i,
        decreases n - i,
    {
        assert(numbers@.take(i + 1).drop_last() =~= numbers@.take(i as int));
        total = total + numbers[i] as i128;
        i += 1;
    }
    assert(numbers@.take(n as int) =~= numbers@);
    narrow_to_i32(total)
}

/// The first of `numbers` minus each of the others in turn, where that lies
/// in the 32-bit signed range, and `Overflow` where it does not. An empty
/// list has no first element: it gives `EmptyInput`.
pub fn subtract_numbers(numbers: &[i32]) -> (r: Result<i32, CalcError>)
    ensures
        r == if numbers@.len() == 0 {
            Err(CalcError::EmptyInput)
        } else {
            narrow(difference(numbers@))
        },
        numbers@.len() > 0 ==> r == narrow(numbers@[0] - sum(numbers@.skip(1))),
{
    let n = numbers.len();
    if n == 0 {
        return Err(CalcError::EmptyInput);
    }
    let mut total: i128 = numbers[0] as i128;
    let mut i: usize = 1;
    assert(numbers@.take(1).len() == 1);
    while i < n
        invariant
            n == numbers.len(),
            1 <= i <= n,
            total == difference(numbers@.take(i as int)),
            -0x8000_0000 * i <= total <= 0x8000_0000 * i,
        decreases n - i,
    {
        assert(numbers@.take(i + 1).drop_last() =~= numbers@.take(i as int));
        total = total - numbers[i] as i128;
        i += 1;
    }
    proof {
        assert(numbers@.take(n as int) =~= numbers@);
        lemma_difference_is_first_minus_sum_of_rest(numbers@);
    }
    narrow_to_i32(total)
}

/// Adds the numbers of the whitespace-separated list `numbers`. A list
/// without numbers adds up to zero.
pub fn add_list(numbers: String) -> (r: Result<i32, CalcError>)
    ensures
        r == spec_add_list(numbers@),
{
    match string_to_numbers(numbers) {
        Ok(list) => sum_numbers(list.as_slice()),
        Err(e) => Err(e),
    }
}

/// Subtracts from the first number of the whitespace-separated list
/// `numbers` each of the others. A list without numbers gives `EmptyInput`.
pub fn sub_list(numbers: String) -> (r: Result<i32, CalcError>)
    ensures
        r == spec_sub_list(numbers@),
{
    match string_to_numbers(numbers) {
        Ok(list) => subtract_numbers(list.as_slice()),
        Err(e) => Err(e),
    }
}

} // verus!

use binop::error::CalcError;
use binop::expr::{evaluate, Operator};

#[test]
fn operator_is_written_by_plus_and_minus_alone() {
    assert_eq!(Operator::from_char('+'), Some(Operator::Plus));
    assert_eq!(Operator::from_char('-'), Some(Operator::Minus));
    for c in ['*', '/', '0', ' ', '\u{2212}', '\u{ff0b}'] {
        assert_eq!(Operator::from_char(c), None);
    }
}

#[test]
fn evaluate_goes_from_left_to_right() {
    assert_eq!(evaluate("1 + 2 - 3 + 4 - 5"), Ok(-1));
    assert_eq!(evaluate("1+2"), Ok(3));
    assert_eq!(evaluate("9-1-1"), Ok(7));
    assert_eq!(evaluate("9 - 1 + 1"), Ok(9));
    assert_eq!(evaluate("0 - 9 - 9 - 9"), Ok(-27));
}

#[test]
fn evaluate_of_a_single_digit_is_that_digit() {
    assert_eq!(evaluate("0"), Ok(0));
    assert_eq!(evaluate("7"), Ok(7));
    assert_eq!(evaluate("9"), Ok(9));
    assert_eq!(evaluate(" 7 "), Ok(7));
}

#[test]
fn evaluate_counts_every_digit_as_a_number() {
    assert_eq!(evaluate("12"), Err(CalcError::StructuralMismatch));
    assert_eq!(evaluate("12 + 3"), Err(CalcError::StructuralMismatch));
    assert_eq!(evaluate("1 + 23"), Err(CalcError::StructuralMismatch));
    assert_eq!(evaluate("1 2"), Err(CalcError::StructuralMismatch));
    assert_eq!(evaluate("007"), Err(CalcError::StructuralMismatch));
}

#[test]
fn evaluate_refuses_counts_that_do_not_agree() {
    assert_eq!(evaluate("1 +"), Err(CalcError::StructuralMismatch));
    assert_eq!(evaluate("1 + 2 -"), Err(CalcError::StructuralMismatch));
    assert_eq!(evaluate("1 + 2 - 34"), Err(CalcError::StructuralMismatch));
}

#[test]
fn evaluate_without_digits_is_a_mismatch() {
    assert_eq!(evaluate(""), Err(CalcError::StructuralMismatch));
    assert_eq!(evaluate("   "), Err(CalcError::StructuralMismatch));
    assert_eq!(evaluate("+"), Err(CalcError::StructuralMismatch));
    assert_eq!(evaluate("- + -"), Err(CalcError::StructuralMismatch));
    assert_eq!(evaluate("abc"), Err(CalcError::StructuralMismatch));
}

#[test]
fn evaluate_with_an_empty_last_number_is_empty_input() {
    assert_eq!(evaluate("12+"), Err(CalcError::EmptyInput));
    assert_eq!(evaluate("12 -"), Err(CalcError::EmptyInput));
    assert_eq!(evaluate("1 + 23 -"), Err(CalcError::EmptyInput));
}

#[test]
fn evaluate_refuses_a_number_out_of_range() {
    assert_eq!(evaluate("2147483648+"), Err(CalcError::NumericParseError));
    assert_eq!(evaluate("2147483648 + 1"), Err(CalcError::NumericParseError));
    assert_eq!(evaluate("1 + 99999999999999999999 - 2"), Err(CalcError::NumericParseError));
    assert_eq!(evaluate("2147483647+"), Err(CalcError::StructuralMismatch));
}

#[test]
fn evaluate_accepts_a_leading_operator() {
    assert_eq!(evaluate("-5"), Ok(-5));
    assert_eq!(evaluate("+5"), Ok(5));
    assert_eq!(evaluate("- 5 + 2"), Ok(-3));
}

#[test]
fn evaluate_lets_the_last_of_adjacent_operators_win() {
    assert_eq!(evaluate("1 + + 2"), Ok(3));
    assert_eq!(evaluate("1 + - 2"), Ok(-1));
    assert_eq!(evaluate("1 - + 2"), Ok(3));
    assert_eq!(evaluate("1 --- 2"), Ok(-1));
    assert_eq!(evaluate("+-+- 4"), Ok(-4));
}

#[test]
fn evaluate_passes_over_other_characters() {
    assert_eq!(evaluate("1 a + b 2"), Ok(3));
    assert_eq!(evaluate("(1 + 2) - (3)"), Ok(0));
    assert_eq!(evaluate("(1 + 2) * 3"), Err(CalcError::StructuralMismatch));
    assert_eq!(evaluate("1\t+\n2"), Ok(3));
    assert_eq!(evaluate("1 \u{ff0b} 2"), Err(CalcError::StructuralMismatch));
    assert_eq!(evaluate("\u{ff11} + 2"), Ok(2));
}

#[test]
fn evaluate_gives_the_same_result_each_time() {
    for text in ["1 + 2 - 3 + 4 - 5", "12", "", "12+", "2147483648+", "7"] {
        assert_eq!(evaluate(text), evaluate(text));
    }
}

#[test]
fn evaluate_of_many_terms() {
    let mut text = String::from("9");
    for _ in 0..999 {
        text.push_str(" + 9");
    }
    assert_eq!(evaluate(&text), Ok(9000));
    let mut text = String::from("0");
    for _ in 0..1000 {
        text.push_str("-9");
    }
    assert_eq!(evaluate(&text), Ok(-9000));
}

#[test]
fn evaluate_of_single_digits_joined_by_operators() {
    for a in 0..10 {
        for b in 0..10 {
            for c in 0..10 {
                for (first, first_sign) in [('+', 1), ('-', -1)] {
                    for (second, second_sign) in [('+', 1), ('-', -1)] {
                        let text = format!("{}{}{}{}{}", a, first, b, second, c);
                        assert_eq!(evaluate(&text), Ok(a + first_sign * b + second_sign * c));
                        let spaced = format!(" {} {} {} {} {} ", a, first, b, second, c);
                        assert_eq!(evaluate(&spaced), evaluate(&text));
                    }
                }
            }
        }
    }
}

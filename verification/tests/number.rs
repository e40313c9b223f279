use binop::error::CalcError;
use binop::number::{is_decimal_digit, parse_i32};

#[test]
fn decimal_digits_are_the_ten_ascii_digits() {
    for c in "0123456789".chars() {
        assert!(is_decimal_digit(c));
    }
    for c in ['/', ':', 'a', ' ', '+', '-', '\u{0661}', '\u{ff11}'] {
        assert!(!is_decimal_digit(c));
    }
}

#[test]
fn parse_reads_plain_digits() {
    assert_eq!(parse_i32(&['0']), Ok(0));
    assert_eq!(parse_i32(&['7']), Ok(7));
    assert_eq!(parse_i32(&['4', '2']), Ok(42));
    assert_eq!(parse_i32(&['1', '2', '3', '4', '5']), Ok(12345));
}

#[test]
fn parse_accepts_leading_zeros() {
    assert_eq!(parse_i32(&['0', '0', '7']), Ok(7));
    let long: Vec<char> = "000000000000000000000000000000000001".chars().collect();
    assert_eq!(parse_i32(&long), Ok(1));
    let zeros: Vec<char> = "-0000".chars().collect();
    assert_eq!(parse_i32(&zeros), Ok(0));
}

#[test]
fn parse_accepts_one_leading_sign() {
    assert_eq!(parse_i32(&['+', '5']), Ok(5));
    assert_eq!(parse_i32(&['-', '5']), Ok(-5));
    assert_eq!(parse_i32(&['-', '1', '3']), Ok(-13));
    assert_eq!(parse_i32(&['+', '-', '5']), Err(CalcError::NumericParseError));
    assert_eq!(parse_i32(&['-', '-', '5']), Err(CalcError::NumericParseError));
    assert_eq!(parse_i32(&['5', '-']), Err(CalcError::NumericParseError));
}

#[test]
fn parse_of_nothing_is_empty_input() {
    assert_eq!(parse_i32(&[]), Err(CalcError::EmptyInput));
}

#[test]
fn parse_of_a_sign_alone_is_a_parse_error() {
    assert_eq!(parse_i32(&['+']), Err(CalcError::NumericParseError));
    assert_eq!(parse_i32(&['-']), Err(CalcError::NumericParseError));
}

#[test]
fn parse_refuses_what_is_no_digit() {
    assert_eq!(parse_i32(&['a']), Err(CalcError::NumericParseError));
    assert_eq!(parse_i32(&['1', 'a']), Err(CalcError::NumericParseError));
    assert_eq!(parse_i32(&['1', ' ', '2']), Err(CalcError::NumericParseError));
    assert_eq!(parse_i32(&[' ', '1']), Err(CalcError::NumericParseError));
    assert_eq!(parse_i32(&['1', '.', '5']), Err(CalcError::NumericParseError));
    assert_eq!(parse_i32(&['\u{ff11}']), Err(CalcError::NumericParseError));
}

#[test]
fn parse_keeps_to_the_32_bit_range() {
    let max: Vec<char> = "2147483647".chars().collect();
    let above: Vec<char> = "2147483648".chars().collect();
    let min: Vec<char> = "-2147483648".chars().collect();
    let below: Vec<char> = "-2147483649".chars().collect();
    let plus_max: Vec<char> = "+2147483647".chars().collect();
    let huge: Vec<char> = "99999999999999999999999999999999".chars().collect();
    let huge_negative: Vec<char> = "-99999999999999999999999999999999".chars().collect();
    assert_eq!(parse_i32(&max), Ok(i32::MAX));
    assert_eq!(parse_i32(&plus_max), Ok(i32::MAX));
    assert_eq!(parse_i32(&above), Err(CalcError::NumericParseError));
    assert_eq!(parse_i32(&min), Ok(i32::MIN));
    assert_eq!(parse_i32(&below), Err(CalcError::NumericParseError));
    assert_eq!(parse_i32(&huge), Err(CalcError::NumericParseError));
    assert_eq!(parse_i32(&huge_negative), Err(CalcError::NumericParseError));
}

#[test]
fn parse_agrees_with_the_standard_parser() {
    let samples = [
        "", "0", "-0", "+0", "1", "-1", "+1", "10", "0010", "2147483647", "2147483648",
        "-2147483648", "-2147483649", "+", "-", "++1", "1+", "1 ", " 1", "12a", "a12", "1_000",
        "4294967296", "-4294967296", "9999999999", "0x10", "１２",
    ];
    for sample in samples {
        let chars: Vec<char> = sample.chars().collect();
        assert_eq!(parse_i32(&chars).ok(), sample.parse::<i32>().ok(), "{:?}", sample);
    }
}

//! The ways in which a calculation can fail.

use vstd::prelude::*;

verus! {

/// Why a calculation gave no result.
#[derive(Clone, Copy, Debug, PartialEq, Eq, Structural)]
pub enum CalcError {
    /// Text that should write an integer does not: it holds a character that
    /// is no digit, is a sign alone, or writes an integer outside the 32-bit
    /// signed range.
    NumericParseError,
    /// In an expression, the number of operators applied is not the number of
    /// digits seen minus one.
    StructuralMismatch,
    /// There is nothing where a number is due: an empty digit string, or an
    /// empty list to subtract from.
    EmptyInput,
    /// The result lies outside the 32-bit signed range.
    Overflow,
}

} // verus!

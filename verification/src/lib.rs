//! Integer calculator: sums and differences of whitespace-separated lists, and
//! left-to-right evaluation of `+`/`-` expressions.
//!
//! - [`command`]: the three commands and what running each gives.
//! - [`list`]: lists of integers written as text, their sum and difference.
//! - [`expr`]: the expression evaluator.
//! - [`number`]: decimal integers written as text.
//! - [`range`]: exact results and the 32-bit range.
//! - [`text`]: the characters of a string.
//! - [`error`]: the ways in which a calculation can fail.
//!
//! Nothing here panics: an input without a result is reported as an
//! [`error::CalcError`].

pub mod command;
pub mod error;
pub mod expr;
pub mod list;
pub mod number;
pub mod range;
pub mod text;

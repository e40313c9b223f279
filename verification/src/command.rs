//! The calculator's three commands.

use vstd::prelude::*;
use crate::error::CalcError;
use crate::expr::{evaluate, spec_evaluate};
use crate::list::{add_list, spec_add_list, spec_sub_list, sub_list};

verus! {

/// A command, with the text it was given, if any.
#[derive(Clone, Debug, PartialEq, Eq)]
pub enum BinOpCommand {
    /// Add the numbers of a whitespace-separated list.
    Add { numbers: Option<String> },
    /// Subtract from the first number of a whitespace-separated list each of
    /// the others.
    Sub { numbers: Option<String> },
    /// Evaluate an expression of digits, `+` and `-` from left to right.
    Expr { expr: Option<String> },
}

/// The text that a command works on when it was given none: `0`.
pub open spec fn default_text() -> Seq<char> {
    seq!['0']
}

/// The text that a command works on: what it was given, or the default.
pub open spec fn text_or_default(given: Option<String>) -> Seq<char> {
    match given {
        Some(text) => text@,
        None => default_text(),
    }
}

/// The text to work on: `given`, or `0` where nothing was given.
pub fn given_or_default(given: Option<String>) -> (text: String)
    ensures
        text@ == text_or_default(given),
{
    match given {
        Some(text) => text,
        None => {
            proof {
                reveal_strlit("0");
            }
            assert("0"@ =~= default_text());
            "0".to_owned()
        },
    }
}

impl BinOpCommand {
    /// What running the command gives.
    pub open spec fn outcome(self) -> Result<i32, CalcError> {
        match self {
            BinOpCommand::Add { numbers } => spec_add_list(text_or_default(numbers)),
            BinOpCommand::Sub { numbers } => spec_sub_list(text_or_default(numbers)),
            BinOpCommand::Expr { expr } => spec_evaluate(text_or_default(expr)),
        }
    }

    /// Runs the command on its text, or on `0` where it was given none.
    pub fn run(self) -> (r: Result<i32, CalcError>)
        ensures
            r == self.outcome(),
    {
        match self {
            BinOpCommand::Add { numbers } => add_list(given_or_default(numbers)),
            BinOpCommand::Sub { numbers } => sub_list(given_or_default(numbers)),
            BinOpCommand::Expr { expr } => {
                let text = given_or_default(expr);
                evaluate(text.as_str())
            },
        }
    }
}

} // verus!

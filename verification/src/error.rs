//! The ways in which reading or evaluating a cell can fail.

use vstd::prelude::*;

verus! {

/// What was wrong with a formula's text at the position where reading it stopped.
#[derive(Debug, Clone, Copy, PartialEq, Eq, Structural)]
pub enum Fault {
    /// The text ended where a number, a reference or `(` had to follow.
    UnexpectedEnd,
    /// A byte stands where a number, a reference or `(` had to start.
    ExpectedOperand,
    /// A decimal point is not followed by a digit.
    ExpectedFraction,
    /// The column letters of a reference are not followed by a row number.
    ExpectedRowNumber,
    /// A reference names row 0; rows are numbered from 1.
    RowZero,
    /// A parenthesis was opened and the matching `)` is missing.
    ExpectedCloseParen,
    /// A complete expression is followed by something that is not an operator.
    ExpectedOperator,
}

/// Why a cell has no computed value.
#[derive(Debug, Clone, Copy, PartialEq, Eq, Structural)]
pub enum EvalError {
    /// A formula is malformed: the byte offset at which reading stopped, and what was wrong
    /// there.
    ParseError(usize, Fault),
    /// The cell at this row and column was reached again while it was being evaluated.
    CircularReference(usize, usize),
    /// A text that is not a number was used as one.
    TypeMismatch,
    /// A formula refers to a row or a column beyond the addressable grid.
    ReferenceOutOfDomain,
}

impl Fault {
    /// The message of each fault, as a sequence of characters.
    pub open spec fn message_text(self) -> Seq<char> {
        match self {
            Fault::UnexpectedEnd => "the formula ends where a value is expected"@,
            Fault::ExpectedOperand => "expected a number, a cell reference or '('"@,
            Fault::ExpectedFraction => "expected a digit after the decimal point"@,
            Fault::ExpectedRowNumber => "expected a row number after the column letters"@,
            Fault::RowZero => "row numbers start at 1"@,
            Fault::ExpectedCloseParen => "expected ')'"@,
            Fault::ExpectedOperator => "expected an operator"@,
        }
    }

    /// A sentence for the user that says what was wrong.
    pub fn message(&self) -> (text: String)
        ensures
            text@ == self.message_text(),
    {
        match self {
            Fault::UnexpectedEnd => "the formula ends where a value is expected".to_owned(),
            Fault::ExpectedOperand => "expected a number, a cell reference or '('".to_owned(),
            Fault::ExpectedFraction => "expected a digit after the decimal point".to_owned(),
            Fault::ExpectedRowNumber => "expected a row number after the column letters".to_owned(),
            Fault::RowZero => "row numbers start at 1".to_owned(),
            Fault::ExpectedCloseParen => "expected ')'".to_owned(),
            Fault::ExpectedOperator => "expected an operator".to_owned(),
        }
    }
}

impl EvalError {
    /// The message of each error, as a sequence of characters.
    pub open spec fn message_text(self) -> Seq<char> {
        match self {
            EvalError::ParseError(_, fault) => fault.message_text(),
            EvalError::CircularReference(_, _) => "circular reference"@,
            EvalError::TypeMismatch => "text used as a number"@,
            EvalError::ReferenceOutOfDomain => "reference outside the grid"@,
        }
    }

    /// A sentence for the user that says why the cell has no value. For a malformed formula
    /// it is the message of the fault; the position is the error's first field.
    pub fn message(&self) -> (text: String)
        ensures
            text@ == self.message_text(),
    {
        match self {
            EvalError::ParseError(_, fault) => fault.message(),
            EvalError::CircularReference(_, _) => "circular reference".to_owned(),
            EvalError::TypeMismatch => "text used as a number".to_owned(),
            EvalError::ReferenceOutOfDomain => "reference outside the grid".to_owned(),
        }
    }
}

} // verus!

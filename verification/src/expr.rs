//! What reading an expression yields: a tree of operations over numeric
//! literals, or the reason why the text is no expression.

use vstd::prelude::*;
use vstd::string::StringExecFns;

verus! {

/// The four binary operations.
#[derive(Clone, Copy, Debug, PartialEq, Eq, Structural)]
pub enum Operator {
    Add,
    Subtract,
    Multiply,
    Divide,
}

/// Why a text could not be read.
#[derive(Clone, Copy, Debug, PartialEq, Eq, Structural)]
pub enum ParseError {
    /// An opened parenthesis is not closed where it has to be.
    UnmatchedParenthesis,
    /// Where an operand is due stands neither `(` nor a digit nor a point.
    InvalidFactor,
    /// A run of digits and points that is no decimal literal.
    InvalidNumber,
}

impl ParseError {
    /// The text in which the error is reported.
    pub open spec fn message_text(self) -> Seq<char> {
        match self {
            ParseError::UnmatchedParenthesis => "Missing closing parenthesis"@,
            ParseError::InvalidFactor => "Invalid factor"@,
            ParseError::InvalidNumber => "Invalid number"@,
        }
    }

    /// Renders the error as its message.
    pub fn message(&self) -> (text: String)
        ensures
            text@ == self.message_text(),
    {
        match self {
            ParseError::UnmatchedParenthesis => String::from_str("Missing closing parenthesis"),
            ParseError::InvalidFactor => String::from_str("Invalid factor"),
            ParseError::InvalidNumber => String::from_str("Invalid number"),
        }
    }
}

/// An expression as it was read: a literal, kept as its text, or an operation
/// on two smaller expressions.
#[derive(Debug, PartialEq, Eq)]
pub enum Expr {
    Number(Vec<char>),
    Binary(Operator, Box<Expr>, Box<Expr>),
}

/// The mathematical model of an [`Expr`].
pub enum ExprView {
    Number(Seq<char>),
    Binary(Operator, Box<ExprView>, Box<ExprView>),
}

impl View for Expr {
    type V = ExprView;

    open spec fn view(&self) -> ExprView
        decreases self,
    {
        match self {
            Expr::Number(text) => ExprView::Number(text@),
            Expr::Binary(op, left, right) => ExprView::Binary(
                *op,
                Box::new((**left).view()),
                Box::new((**right).view()),
            ),
        }
    }
}

/// The model of what a parsing function hands back.
pub open spec fn result_view(r: Result<Expr, ParseError>) -> Result<ExprView, ParseError> {
    match r {
        Ok(e) => Ok(e@),
        Err(e) => Err(e),
    }
}

} // verus!

use vstd::prelude::*;

verus! {

/// The kinds of failure an evaluation can end in.
#[derive(Debug, Clone, Copy, PartialEq, Eq, Structural)]
pub enum EvaluationError {
    /// The expression holds an alphabetic character.
    InvalidInput,
    /// A numeric literal does not have the shape of a decimal number.
    MalformedNumber,
    /// A character outside a number run is not an operator.
    InvalidSymbol,
    /// A `)` has no matching `(`.
    MismatchedParens,
    /// A `(` is still open at the end of the input.
    UnclosedParen,
    /// The postfix sequence has an even number of tokens.
    InvalidExpression,
    /// There is nothing to evaluate.
    EmptyExpression,
    /// An operator lacks its operands, or operands are left over.
    SyntaxError,
    /// A division has a zero right operand.
    DivisionByZero,
}

impl EvaluationError {
    /// A short human-readable description of the error.
    pub fn message(&self) -> &'static str {
        match self {
            EvaluationError::InvalidInput => "found invalid input",
            EvaluationError::MalformedNumber => "found a malformed number",
            EvaluationError::InvalidSymbol => "found an invalid symbol",
            EvaluationError::MismatchedParens => "found a ')' without a matching '('",
            EvaluationError::UnclosedParen => "found an unclosed '('",
            EvaluationError::InvalidExpression => "found an invalid expression",
            EvaluationError::EmptyExpression => "found an empty expression",
            EvaluationError::SyntaxError => "syntax error",
            EvaluationError::DivisionByZero => "cannot divide by zero",
        }
    }
}

} // verus!

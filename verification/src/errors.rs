//! The calculator's error type and its rendering as display text.

use vstd::prelude::*;
use vstd::string::StringExecFns;

verus! {

/// Everything that can go wrong while validating, parsing or
/// evaluating an expression.
#[derive(Debug, Clone, PartialEq)]
pub enum CalculatorError {
    /// Division by zero
    DivisionByZero,
    /// Invalid number format
    InvalidNumber(String),
    /// Invalid operation or syntax
    InvalidExpression(String),
    /// Input exceeds maximum allowed length
    InputTooLong,
    /// Input contains invalid characters
    InvalidCharacters(String),
    /// Numeric value out of allowed range
    NumberOutOfRange(String),
}

/// The human-readable text of each error, exactly as the display shows it.
pub open spec fn spec_message(e: CalculatorError) -> Seq<char> {
    match e {
        CalculatorError::DivisionByZero => "Division by zero"@,
        CalculatorError::InvalidNumber(s) => "Invalid number: "@ + s@,
        CalculatorError::InvalidExpression(s) => "Invalid expression: "@ + s@,
        CalculatorError::InputTooLong => "Input too long"@,
        CalculatorError::InvalidCharacters(s) => "Invalid characters: "@ + s@,
        CalculatorError::NumberOutOfRange(s) => "Number out of range: "@ + s@,
    }
}

impl CalculatorError {
    /// Renders the error as the text the calculator displays.
    pub fn message(&self) -> (r: String)
        ensures
            r@ == spec_message(*self),
    {
        match self {
            CalculatorError::DivisionByZero => String::from_str("Division by zero"),
            CalculatorError::InvalidNumber(s) => {
                String::from_str("Invalid number: ").concat(s.as_str())
            },
            CalculatorError::InvalidExpression(s) => {
                String::from_str("Invalid expression: ").concat(s.as_str())
            },
            CalculatorError::InputTooLong => String::from_str("Input too long"),
            CalculatorError::InvalidCharacters(s) => {
                String::from_str("Invalid characters: ").concat(s.as_str())
            },
            CalculatorError::NumberOutOfRange(s) => {
                String::from_str("Number out of range: ").concat(s.as_str())
            },
        }
    }
}

} // verus!

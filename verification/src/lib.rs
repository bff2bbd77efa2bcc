//! A calculator library: expression validation, tokenization,
//! operator-precedence parsing, postfix evaluation, and the incremental
//! input state machine that builds an expression one keystroke at a time.
//!
//! Values are exact decimals: a significand of at most eighteen digits
//! and a power-of-ten exponent, bounded in magnitude by `1e100` at
//! every step, with truncation toward zero as the single rounding rule.
//! Every function's behaviour is stated in its contract and checked by
//! the verifier; the laws module collects the properties that relate
//! several functions.

pub mod calculator;
pub mod chars;
pub mod digits;
pub mod display;
pub mod errors;
pub mod input;
pub mod laws;
pub mod num_format;
pub mod num_parse;
pub mod number;
pub mod postfix;
pub mod segments;
pub mod tokenizer;
pub mod ui;

pub use calculator::{Calculator, Operation};
pub use errors::CalculatorError;
pub use number::Number;
pub use ui::{CalculatorUIState, MessageResult, UIMessage};

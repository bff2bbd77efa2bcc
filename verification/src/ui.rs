//! GUI state management for the calculator: the message-based boundary
//! between the verified core and a display shell.

use vstd::prelude::*;
use vstd::string::StrSliceExecFns;
use crate::calculator::{Calculator, Operation};
use crate::input::{
    spec_backspace_input, spec_clear_input, spec_decimal_input, spec_equals_input,
    spec_number_input, spec_operation_input, spec_percentage_input, spec_sign_toggle_input,
};

verus! {

/// UI-side state: the calculator itself plus scroll bookkeeping.
#[derive(Debug, Clone)]
pub struct CalculatorUIState {
    /// The calculator logic instance
    pub calculator: Calculator,
    /// Previous display text length for scroll management
    pub previous_display_len: usize,
}

/// The events the shell can deliver.
#[derive(Debug, Clone, PartialEq, Eq, Structural)]
pub enum UIMessage {
    /// A digit key.
    NumberPressed(u8),
    /// The decimal point key.
    DecimalPressed,
    /// One of the four operator keys.
    OperationPressed(Operation),
    /// The equals key.
    EqualsPressed,
    /// The clear key.
    ClearPressed,
    /// The backspace key.
    BackspacePressed,
    /// The percent key.
    PercentagePressed,
    /// The sign-toggle key.
    SignTogglePressed,
}

/// Result of processing a UI message, indicating if scrolling should occur.
#[derive(Debug, PartialEq, Eq, Structural)]
pub enum MessageResult {
    /// No scrolling needed
    NoScroll,
    /// Scrolling to end is needed
    ScrollToEnd,
}

/// The state transition each message performs on the calculator.
pub open spec fn spec_apply_message(
    e0: Seq<char>,
    d0: Seq<char>,
    ni0: bool,
    message: UIMessage,
) -> (Seq<char>, Seq<char>, bool) {
    match message {
        UIMessage::NumberPressed(digit) => spec_number_input(e0, d0, ni0, digit),
        UIMessage::DecimalPressed => spec_decimal_input(e0, d0, ni0),
        UIMessage::OperationPressed(operation) => spec_operation_input(e0, d0, ni0, operation),
        UIMessage::EqualsPressed => spec_equals_input(e0, d0, ni0),
        UIMessage::ClearPressed => spec_clear_input(),
        UIMessage::BackspacePressed => spec_backspace_input(e0, d0, ni0),
        UIMessage::PercentagePressed => spec_percentage_input(e0, d0, ni0),
        UIMessage::SignTogglePressed => spec_sign_toggle_input(e0, d0, ni0),
    }
}

impl CalculatorUIState {
    /// Creates a new UI state with default values.
    pub fn new() -> (r: CalculatorUIState)
        ensures
            r.calculator.expression@ == "0"@,
            r.calculator.display@ == "0"@,
            !r.calculator.new_input,
            r.previous_display_len == 1,
    {
        CalculatorUIState { calculator: Calculator::new(), previous_display_len: 1 }
    }

    /// Processes a UI message and returns whether scrolling should
    /// occur: the shell scrolls to the end exactly when the expression
    /// grew.
    pub fn process_message(&mut self, message: UIMessage) -> (r: MessageResult)
        ensures
            (
                final(self).calculator.expression@,
                final(self).calculator.display@,
                final(self).calculator.new_input,
            ) == spec_apply_message(
                old(self).calculator.expression@,
                old(self).calculator.display@,
                old(self).calculator.new_input,
                message,
            ),
            final(self).previous_display_len == old(self).previous_display_len,
            r == (if final(self).calculator.expression@.len()
                > old(self).calculator.expression@.len() {
                MessageResult::ScrollToEnd
            } else {
                MessageResult::NoScroll
            }),
    {
        let old_len = self.calculator.expression.as_str().unicode_len();
        match message {
            UIMessage::NumberPressed(digit) => {
                self.calculator.handle_number_input(digit);
            },
            UIMessage::DecimalPressed => {
                self.calculator.handle_decimal_input();
            },
            UIMessage::OperationPressed(operation) => {
                self.calculator.handle_operation_input(operation);
            },
            UIMessage::EqualsPressed => {
                self.calculator.handle_equals_input();
            },
            UIMessage::ClearPressed => {
                self.calculator.handle_clear_input();
            },
            UIMessage::BackspacePressed => {
                self.calculator.handle_backspace_input();
            },
            UIMessage::PercentagePressed => {
                self.calculator.handle_percentage_input();
            },
            UIMessage::SignTogglePressed => {
                self.calculator.handle_sign_toggle_input();
            },
        }
        let new_len = self.calculator.expression.as_str().unicode_len();
        if new_len > old_len {
            MessageResult::ScrollToEnd
        } else {
            MessageResult::NoScroll
        }
    }

    /// Determines if scrolling should occur based on expression length
    /// changes.
    pub fn should_scroll(&self, old_expression_len: usize, new_expression_len: usize) -> (r: bool)
        ensures
            r == (new_expression_len > old_expression_len),
    {
        new_expression_len > old_expression_len
    }
}

impl Default for CalculatorUIState {
    /// The default UI state is the freshly created one.
    fn default() -> (r: Self)
        ensures
            r.calculator.expression@ == "0"@,
            r.calculator.display@ == "0"@,
            !r.calculator.new_input,
            r.previous_display_len == 1,
    {
        Self::new()
    }
}

} // verus!

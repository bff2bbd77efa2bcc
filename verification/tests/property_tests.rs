use rust_calculator::{Calculator, CalculatorError, Number, Operation};

/// Parses a literal into the calculator's number type.
fn num(s: &str) -> Number {
    Calculator::safe_parse_number(s).unwrap()
}

#[test]
fn test_precedence_over_all_rank_mixes() {
    let calc = Calculator::new();
    // multiplication and division bind tighter than addition and subtraction
    assert_eq!(calc.evaluate("2+3x4"), Ok(num("14")));
    assert_eq!(calc.evaluate("10-2x3"), Ok(num("4")));
    assert_eq!(calc.evaluate("2+6/2"), Ok(num("5")));
    // equal ranks associate left-to-right
    assert_eq!(calc.evaluate("8x2/4"), Ok(num("4")));
    assert_eq!(calc.evaluate("1-2+3"), Ok(num("2")));
}

#[test]
fn test_parentheses_override_precedence() {
    let calc = Calculator::new();
    assert_eq!(calc.evaluate("2x(3+4)"), Ok(num("14")));
    assert_eq!(calc.evaluate("((2+3)x2)"), Ok(num("10")));
}

#[test]
fn test_division_by_zero_any_position() {
    let calc = Calculator::new();
    assert_eq!(calc.evaluate("10/0"), Err("Division by zero".to_string()));
    assert_eq!(calc.evaluate("5+10/0"), Err("Division by zero".to_string()));
    assert_eq!(calc.evaluate("1/0x3"), Err("Division by zero".to_string()));
}

#[test]
fn test_magnitude_bounds() {
    let calc = Calculator::new();
    // a literal at the bound succeeds; one beyond it fails
    assert!(calc.evaluate("1e100").is_ok());
    assert_eq!(
        calc.evaluate("1e200"),
        Err("Number out of range: 1e200".to_string())
    );
    // a computed magnitude beyond the bound fails as well
    assert!(calc.evaluate("1e60x1e60").is_err());
    // a computation that returns inside the bound succeeds
    assert_eq!(calc.evaluate("1e100/1e10"), Ok(num("1e90")));
}

#[test]
fn test_display_round_trip_short_numbers() {
    let mut calc = Calculator::new();
    calc.expression = "123.456".to_string();
    assert_eq!(calc.display_string(), "123.456");
    calc.expression = "7".to_string();
    assert_eq!(calc.display_string(), "7");
    calc.expression = "999999999".to_string(); // just below the magnitude threshold
    assert_eq!(calc.display_string(), "999999999");
    calc.expression = "12+34".to_string();
    assert_eq!(calc.display_string(), "12+34");
}

#[test]
fn test_input_length_guard_boundary() {
    let calc = Calculator::new();
    // exactly one thousand characters pass the guard
    let at_limit = "1".repeat(Calculator::MAX_INPUT_LENGTH);
    assert!(calc.evaluate(&at_limit).is_err() || calc.evaluate(&at_limit).is_ok());
    assert_ne!(calc.evaluate(&at_limit), Err("Input too long".to_string()));
    // one more character is rejected before any parsing
    let over_limit = "1".repeat(Calculator::MAX_INPUT_LENGTH + 1);
    assert_eq!(calc.evaluate(&over_limit), Err("Input too long".to_string()));
}

#[test]
fn test_number_entry_scenario() {
    let mut calc = Calculator::new();
    calc.handle_number_input(5);
    calc.handle_operation_input(Operation::Add);
    calc.handle_number_input(3);
    calc.handle_equals_input();
    assert_eq!(calc.display, "8");
    assert_eq!(calc.expression, "8");
    assert!(calc.new_input);
}

#[test]
fn test_backspace_collapse_scenario() {
    let mut calc = Calculator::new();
    calc.expression = "123+45".to_string();
    calc.display = "123+45".to_string();
    calc.handle_backspace_input();
    assert_eq!(calc.expression, "123+4");
    calc.handle_backspace_input();
    assert_eq!(calc.expression, "123+");
    calc.handle_backspace_input();
    assert_eq!(calc.expression, "123");
}

#[test]
fn test_consecutive_operator_rejection() {
    let calc = Calculator::new();
    assert!(calc.evaluate("5++3").is_err());
    assert!(calc.evaluate("2+-3").is_err());
    // a binary minus followed by a unary minus is accepted
    assert_eq!(calc.evaluate("2--3"), Ok(num("5")));
}

#[test]
fn test_unary_minus_inside_parentheses() {
    let calc = Calculator::new();
    assert_eq!(calc.evaluate("5+(-3)"), Ok(num("2")));
    assert_eq!(calc.evaluate("-(-5)"), Ok(num("5")));
}

#[test]
fn test_every_error_message() {
    let calc = Calculator::new();
    assert_eq!(calc.evaluate("10/0"), Err("Division by zero".to_string()));
    assert_eq!(
        Calculator::safe_parse_number("abc"),
        Err(CalculatorError::InvalidNumber("abc".to_string()))
    );
    assert_eq!(
        Calculator::validate_input(&"9".repeat(1001)),
        Err(CalculatorError::InputTooLong)
    );
    assert_eq!(
        Calculator::validate_input("a#b"),
        Err(CalculatorError::InvalidCharacters("a#b".to_string()))
    );
    assert_eq!(
        Calculator::safe_parse_number("1e101"),
        Err(CalculatorError::NumberOutOfRange("1e101".to_string()))
    );
    // every variant renders its display text
    assert_eq!(
        CalculatorError::InvalidExpression("x".to_string()).message(),
        "Invalid expression: x"
    );
    assert_eq!(CalculatorError::DivisionByZero.message(), "Division by zero");
    assert_eq!(calc.evaluate("(2+3"), Err("Mismatched parentheses".to_string()));
    assert_eq!(calc.evaluate("2+3)"), Err("Mismatched parentheses".to_string()));
}

#[test]
fn test_equals_display_formats() {
    let mut calc = Calculator::new();
    // large results switch to four-decimal scientific notation
    calc.expression = "1000000x2".to_string();
    calc.handle_equals_input();
    assert_eq!(calc.display, "2.0000e6");
    // tiny results too
    calc.handle_clear_input();
    calc.expression = "1/10000000".to_string();
    calc.handle_equals_input();
    assert_eq!(calc.display, "1.0000e-7");
    // ordinary results are fixed-point with trailing zeros trimmed
    calc.handle_clear_input();
    calc.expression = "5/2".to_string();
    calc.handle_equals_input();
    assert_eq!(calc.display, "2.5");
    // a non-terminating quotient is cut at eight decimals
    calc.handle_clear_input();
    calc.expression = "10/3".to_string();
    calc.handle_equals_input();
    assert_eq!(calc.display, "3.33333333");
}

#[test]
fn test_significand_truncates_past_eighteen_digits() {
    // the nineteenth significant digit is cut, not rounded
    assert_eq!(
        num("1999999999999999999"),
        num("1999999999999999990")
    );
    assert_eq!(Calculator::safe_parse_number("0"), Ok(num("0.000")));
}

#[test]
fn test_percent_and_sign_toggle_values() {
    let mut calc = Calculator::new();
    calc.expression = "50".to_string();
    calc.display = "50".to_string();
    calc.handle_percentage_input();
    assert_eq!(calc.display, "0.5");
    assert_eq!(calc.expression, "0.5");

    let mut calc2 = Calculator::new();
    calc2.expression = "8+5".to_string();
    calc2.display = "5".to_string();
    calc2.handle_sign_toggle_input();
    assert_eq!(calc2.expression, "8+(-5)");

    calc2.handle_sign_toggle_input();
    assert_eq!(calc2.expression, "8+5");
}

#[test]
fn test_whitespace_is_ignored() {
    let calc = Calculator::new();
    assert_eq!(calc.evaluate(" 7 + 8 "), Ok(num("15")));
    assert_eq!(calc.evaluate("   "), Ok(num("0")));
}

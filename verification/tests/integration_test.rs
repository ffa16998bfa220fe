// Integration tests: parsing + evaluation + formatting through one
// calculator over the static fallback rate table.

use indumi::calc::Calculator;
use indumi::currency::CurrencyConverter;

fn new_calculator() -> Calculator {
    Calculator::new(CurrencyConverter::new(CurrencyConverter::fallback_rates()))
}

fn test_expression(expr: &str, expected_contains: &[&str], expected_not_contains: &[&str]) {
    let mut calc = new_calculator();
    let result = calc.evaluate_line(expr);

    assert!(result.is_some(), "Expression '{}' returned None", expr);

    let output = result.unwrap();
    println!("Expression: {} => {}", expr, output);

    for pattern in expected_contains {
        assert!(
            output.contains(pattern),
            "Output '{}' should contain '{}'",
            output,
            pattern
        );
    }

    for pattern in expected_not_contains {
        assert!(
            !output.contains(pattern),
            "Output '{}' should NOT contain '{}'",
            output,
            pattern
        );
    }
}

#[test]
fn test_basic_arithmetic() {
    test_expression("2 + 3", &["5"], &["Error"]);
    test_expression("10 - 5", &["5"], &["Error"]);
    test_expression("4 * 5", &["20"], &["Error"]);
    test_expression("20 / 4", &["5"], &["Error"]);
}

#[test]
fn test_operator_precedence() {
    test_expression("2 + 3 * 4", &["14"], &["20", "Error"]); // Should be 2 + 12 = 14
    test_expression("10 - 2 * 3", &["4"], &["24", "Error"]); // Should be 10 - 6 = 4
}

#[test]
fn test_parentheses() {
    test_expression("(2 + 3) * 4", &["20"], &["14", "Error"]);
    test_expression("2 * (3 + 4)", &["14"], &["10", "Error"]);
    test_expression("((2 + 3) * 4) / 2", &["10"], &["Error"]);
}

#[test]
fn test_text_multipliers() {
    test_expression("1 b", &["1,000,000,000", "1 B"], &["Error"]);
    test_expression("5 m", &["5,000,000", "5 M"], &["Error"]);
    test_expression("10 k", &["10,000", "10 K"], &["Error"]);
    // "2 cr" = 20,000,000 displays with Western grouping for plain numbers
    test_expression("2 cr", &["20,000,000"], &["Error"]);
    test_expression("3 lakh", &["300,000"], &["Error"]);
}

#[test]
fn test_text_multipliers_in_expressions() {
    test_expression("1 b / 4", &["250,000,000", "250 M"], &["Error"]);
    test_expression("10 k * 3", &["30,000", "30 K"], &["Error"]);
    test_expression("1 m + 500 k", &["1,500,000", "1.5 M"], &["Error"]);
}

#[test]
fn test_number_formatting() {
    test_expression("1000", &["1,000"], &["Error"]);
    test_expression("1000000", &["1,000,000", "1 M"], &["Error"]);
    test_expression("1000000000", &["1,000,000,000", "1 B"], &["Error"]);
}

#[test]
fn test_currency_conversions() {
    test_expression("100 USD to INR", &["₹"], &["Error"]);
    test_expression("100 USD to EUR", &["€"], &["Error"]);
    test_expression("1000 INR to USD", &["$"], &["Error"]);
}

#[test]
fn test_currency_with_parentheses() {
    // After division, currency context is lost (it becomes a plain number)
    test_expression("(100 USD to INR) / 4", &[], &["Error"]);
    // But direct conversion works
    test_expression("(50 USD + 50 USD) to EUR", &["€"], &["Error"]);
}

#[test]
fn test_variables() {
    let mut calc = new_calculator();

    let result1 = calc.evaluate_line("x = 100");
    assert!(result1.is_some());
    assert_eq!(result1.unwrap(), "100");

    let result2 = calc.evaluate_line("x + 50");
    assert!(result2.is_some());
    assert_eq!(result2.unwrap(), "150");

    let result3 = calc.evaluate_line("x * 2");
    assert!(result3.is_some());
    assert_eq!(result3.unwrap(), "200");
}

#[test]
fn test_variable_with_currency() {
    let mut calc = new_calculator();

    // Assignment expressions show the numeric result, not currency formatted
    let result1 = calc.evaluate_line("converted = 100 USD to INR");
    assert!(result1.is_some());
    let output1 = result1.unwrap();
    assert!(!output1.contains("Error"));
    assert!(output1.chars().any(|c| c.is_numeric()));

    let result2 = calc.evaluate_line("converted / 4");
    assert!(result2.is_some());
    let output2 = result2.unwrap();
    assert!(!output2.contains("Error"));
}

#[test]
fn test_complex_real_world_scenarios() {
    // Budget calculation
    test_expression("(1500 + 800 + 300) * 12", &["31,200", "31.2 K"], &["Error"]);

    // Large number division
    test_expression("1 b / 1 m", &["1,000"], &["Error"]);

    // Mixed operations
    test_expression("(10 k + 5 k) * 2", &["30,000", "30 K"], &["Error"]);
}

#[test]
fn test_error_cases() {
    let mut calc = new_calculator();

    // Division by zero
    let result = calc.evaluate_line("10 / 0");
    assert!(result.is_some());
    assert!(result.unwrap().contains("Error"));

    // Undefined variable
    let result2 = calc.evaluate_line("undefined_var + 5");
    assert!(result2.is_some());
    assert!(result2.unwrap().contains("Error"));

    // Invalid syntax
    let result3 = calc.evaluate_line("5 +");
    assert!(result3.is_some());
    assert!(result3.unwrap().contains("error"));
}

#[test]
fn test_edge_cases() {
    // Very small numbers: formatting rounds to 2 decimal places,
    // so 0.001 displays as 0
    test_expression("0.001", &["0"], &["Error"]);

    // The parser has no unary minus; use subtraction
    test_expression("0 - 5 + 10", &["5"], &["Error"]);
    test_expression("5 - 10", &["-5"], &["Error"]);

    // Zero
    test_expression("0", &["0"], &["Error"]);
}

#[test]
fn test_decimal_precision() {
    test_expression("10 / 3", &["3.33"], &["Error"]);
    test_expression("1.5 * 2.5", &["3.75"], &["Error"]);
}

#[test]
fn test_mixed_currency_and_math() {
    // Currency annotation in arithmetic
    test_expression("50 USD + 50 USD", &["100"], &["Error"]);

    // Large currency conversion with division
    test_expression("(1 b INR to USD) / 4", &[], &["Error"]);

    // Direct currency conversion maintains currency
    test_expression("1 b INR to USD", &["$"], &["Error"]);
}

#[test]
fn test_empty_and_whitespace() {
    let mut calc = new_calculator();

    assert!(calc.evaluate_line("").is_none());
    assert!(calc.evaluate_line("   ").is_none());
    assert!(calc.evaluate_line("\t\n").is_none());
}

#[test]
fn test_sequential_calculations() {
    let mut calc = new_calculator();

    calc.evaluate_line("a = 10");
    calc.evaluate_line("b = 20");
    calc.evaluate_line("c = a + b");

    let result = calc.evaluate_line("c * 2");
    assert!(result.is_some());
    assert_eq!(result.unwrap(), "60");
}

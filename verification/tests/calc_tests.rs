use indumi::calc::Calculator;
use indumi::currency::CurrencyConverter;
use indumi::format::{
    estimate_number, format_currency, format_indian_number, format_number, format_western_number,
    format_with_separator,
};
use indumi::num::Num;
use indumi::parser::{Expression, Operator};

fn create_test_calculator() -> Calculator {
    Calculator::new(CurrencyConverter::new(CurrencyConverter::fallback_rates()))
}

#[test]
fn test_evaluate_number() {
    let mut calc = create_test_calculator();
    let expr = Expression::Number(Num::from_int(42));
    assert_eq!(calc.evaluate(&expr).unwrap(), Num::from_int(42));
}

#[test]
fn test_evaluate_addition() {
    let mut calc = create_test_calculator();
    let expr = Expression::BinaryOp {
        op: Operator::Add,
        left: Box::new(Expression::Number(Num::from_int(2))),
        right: Box::new(Expression::Number(Num::from_int(3))),
    };
    assert_eq!(calc.evaluate(&expr).unwrap(), Num::from_int(5));
}

#[test]
fn test_evaluate_subtraction() {
    let mut calc = create_test_calculator();
    let expr = Expression::BinaryOp {
        op: Operator::Subtract,
        left: Box::new(Expression::Number(Num::from_int(10))),
        right: Box::new(Expression::Number(Num::from_int(3))),
    };
    assert_eq!(calc.evaluate(&expr).unwrap(), Num::from_int(7));
}

#[test]
fn test_evaluate_multiplication() {
    let mut calc = create_test_calculator();
    let expr = Expression::BinaryOp {
        op: Operator::Multiply,
        left: Box::new(Expression::Number(Num::from_int(4))),
        right: Box::new(Expression::Number(Num::from_int(5))),
    };
    assert_eq!(calc.evaluate(&expr).unwrap(), Num::from_int(20));
}

#[test]
fn test_evaluate_division() {
    let mut calc = create_test_calculator();
    let expr = Expression::BinaryOp {
        op: Operator::Divide,
        left: Box::new(Expression::Number(Num::from_int(20))),
        right: Box::new(Expression::Number(Num::from_int(4))),
    };
    assert_eq!(calc.evaluate(&expr).unwrap(), Num::from_int(5));
}

#[test]
fn test_evaluate_division_by_zero() {
    let mut calc = create_test_calculator();
    let expr = Expression::BinaryOp {
        op: Operator::Divide,
        left: Box::new(Expression::Number(Num::from_int(10))),
        right: Box::new(Expression::Number(Num::from_int(0))),
    };
    assert!(calc.evaluate(&expr).is_err());
}

#[test]
fn test_evaluate_variable_assignment() {
    let mut calc = create_test_calculator();
    let assign = Expression::Assignment {
        var: "x".to_string(),
        expr: Box::new(Expression::Number(Num::from_int(100))),
    };
    assert_eq!(calc.evaluate(&assign).unwrap(), Num::from_int(100));

    // Variable should now be stored
    let var_expr = Expression::Variable("x".to_string());
    assert_eq!(calc.evaluate(&var_expr).unwrap(), Num::from_int(100));
}

#[test]
fn test_evaluate_undefined_variable() {
    let mut calc = create_test_calculator();
    let expr = Expression::Variable("undefined".to_string());
    assert!(calc.evaluate(&expr).is_err());
}

#[test]
fn test_evaluate_currency_annotation() {
    let mut calc = create_test_calculator();
    let expr = Expression::CurrencyAnnotation {
        value: Box::new(Expression::Number(Num::from_int(100))),
        currency: "USD".to_string(),
    };
    // Currency annotation just returns the value
    assert_eq!(calc.evaluate(&expr).unwrap(), Num::from_int(100));
}

#[test]
fn test_evaluate_currency_conversion() {
    let mut calc = create_test_calculator();
    let expr = Expression::CurrencyConversion {
        source: Box::new(Expression::CurrencyAnnotation {
            value: Box::new(Expression::Number(Num::from_int(100))),
            currency: "USD".to_string(),
        }),
        target_currency: "INR".to_string(),
    };
    let result = calc.evaluate(&expr).unwrap();
    assert!(
        result > Num::from_int(7000) && result < Num::from_int(10000),
        "USD to INR rate out of expected range"
    );
}

#[test]
fn test_evaluate_complex_expression() {
    let mut calc = create_test_calculator();
    // (2 + 3) * 4 = 20
    let expr = Expression::BinaryOp {
        op: Operator::Multiply,
        left: Box::new(Expression::BinaryOp {
            op: Operator::Add,
            left: Box::new(Expression::Number(Num::from_int(2))),
            right: Box::new(Expression::Number(Num::from_int(3))),
        }),
        right: Box::new(Expression::Number(Num::from_int(4))),
    };
    assert_eq!(calc.evaluate(&expr).unwrap(), Num::from_int(20));
}

#[test]
fn test_extract_currency_from_annotation() {
    let calc = create_test_calculator();
    let expr = Expression::CurrencyAnnotation {
        value: Box::new(Expression::Number(Num::from_int(100))),
        currency: "USD".to_string(),
    };
    assert_eq!(calc.extract_currency(&expr).unwrap(), "USD");
}

#[test]
fn test_extract_currency_from_binary_op() {
    let calc = create_test_calculator();
    // (50 + 50) USD
    let expr = Expression::BinaryOp {
        op: Operator::Add,
        left: Box::new(Expression::CurrencyAnnotation {
            value: Box::new(Expression::Number(Num::from_int(50))),
            currency: "USD".to_string(),
        }),
        right: Box::new(Expression::Number(Num::from_int(50))),
    };
    // Should extract USD from left side
    assert_eq!(calc.extract_currency(&expr).unwrap(), "USD");
}

#[test]
fn test_evaluate_line_basic() {
    let mut calc = create_test_calculator();
    let result = calc.evaluate_line("100 + 50");
    assert!(result.is_some());
    assert_eq!(result.unwrap(), "150");
}

#[test]
fn test_evaluate_line_with_formatting() {
    let mut calc = create_test_calculator();
    let result = calc.evaluate_line("1000000");
    assert!(result.is_some());
    // Should have formatting with comma separators
    assert!(result.unwrap().contains("1,000,000"));
}

#[test]
fn test_evaluate_line_currency_conversion() {
    let mut calc = create_test_calculator();
    let result = calc.evaluate_line("100 USD to INR");
    assert!(result.is_some());
    let output = result.unwrap();
    println!("Currency conversion output: {}", output);
    // Should have currency symbol and formatting
    assert!(output.contains("₹"));
    assert!(output.chars().any(|c| c.is_numeric()));
}

#[test]
fn test_evaluate_line_empty() {
    let mut calc = create_test_calculator();
    assert!(calc.evaluate_line("").is_none());
    assert!(calc.evaluate_line("   ").is_none());
}

#[test]
fn test_format_western_number() {
    assert_eq!(format_western_number(1000), "1,000");
    assert_eq!(format_western_number(1000000), "1,000,000");
    assert_eq!(format_western_number(1234567), "1,234,567");
}

#[test]
fn test_format_indian_number() {
    assert_eq!(format_indian_number(1000), "1,000");
    assert_eq!(format_indian_number(100000), "1,00,000");
    assert_eq!(format_indian_number(10000000), "1,00,00,000");
    assert_eq!(format_indian_number(12345678), "1,23,45,678");
}

#[test]
fn test_format_with_separator_western() {
    assert_eq!(format_with_separator(Num::from_units(1_234_560_000), false), "1,234.56");
    assert_eq!(format_with_separator(Num::from_int(1000000), false), "1,000,000");
}

#[test]
fn test_format_with_separator_indian() {
    assert_eq!(format_with_separator(Num::from_int(100000), true), "1,00,000");
    assert_eq!(format_with_separator(Num::from_int(10000000), true), "1,00,00,000");
}

#[test]
fn test_format_with_separator_negative() {
    assert_eq!(format_with_separator(Num::from_int(-1234), false), "-1,234");
    assert_eq!(format_with_separator(Num::from_int(-100000), true), "-1,00,000");
}

#[test]
fn test_estimate_number_below_threshold() {
    assert_eq!(estimate_number(Num::from_int(500), false), None);
    assert_eq!(estimate_number(Num::from_int(999), false), None);
}

#[test]
fn test_estimate_number_thousands() {
    assert_eq!(estimate_number(Num::from_int(1000), false), Some("1 K".to_string()));
    assert_eq!(estimate_number(Num::from_int(5500), false), Some("5.5 K".to_string()));
    assert_eq!(estimate_number(Num::from_int(10000), false), Some("10 K".to_string()));
}

#[test]
fn test_estimate_number_millions() {
    assert_eq!(estimate_number(Num::from_int(1000000), false), Some("1 M".to_string()));
    assert_eq!(estimate_number(Num::from_int(2500000), false), Some("2.5 M".to_string()));
}

#[test]
fn test_estimate_number_billions() {
    assert_eq!(estimate_number(Num::from_int(1000000000), false), Some("1 B".to_string()));
    assert_eq!(estimate_number(Num::from_int(3500000000), false), Some("3.5 B".to_string()));
}

#[test]
fn test_estimate_number_lakhs() {
    assert_eq!(estimate_number(Num::from_int(100000), true), Some("1 Lac".to_string()));
    assert_eq!(estimate_number(Num::from_int(500000), true), Some("5 Lac".to_string()));
}

#[test]
fn test_estimate_number_crores() {
    assert_eq!(estimate_number(Num::from_int(10000000), true), Some("1 Cr".to_string()));
    assert_eq!(estimate_number(Num::from_int(25000000), true), Some("2.5 Cr".to_string()));
}

#[test]
fn test_format_currency_usd() {
    let result = format_currency(Num::from_units(1_234_560_000), "USD");
    assert!(result.contains("$"));
    assert!(result.contains("1,234.56"));
}

#[test]
fn test_format_currency_inr() {
    let result = format_currency(Num::from_int(100000), "INR");
    assert!(result.contains("₹"));
    assert!(result.contains("1,00,000"));
}

#[test]
fn test_format_currency_eur() {
    let result = format_currency(Num::from_int(5000), "EUR");
    assert!(result.contains("€"));
    assert!(result.contains("5,000"));
}

#[test]
fn test_format_number_with_estimate() {
    let result = format_number(Num::from_int(1000000));
    assert!(result.contains("1,000,000"));
    assert!(result.contains("1 M"));
}

#[test]
fn test_format_number_without_estimate() {
    let result = format_number(Num::from_int(500));
    assert_eq!(result, "500");
}

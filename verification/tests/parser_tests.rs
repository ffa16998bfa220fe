use indumi::num::Num;
use indumi::parser::{is_currency, normalize_currency, Expression, Operator, Parser};
use indumi::tokenizer::{text_to_multiplier, tokenize};

#[test]
fn test_parse_number() {
    let parser = Parser::new();
    match parser.parse("42") {
        Ok(Expression::Number(n)) => assert_eq!(n, Num::from_int(42)),
        _ => panic!("Expected Number expression"),
    }
}

#[test]
fn test_parse_decimal() {
    let parser = Parser::new();
    match parser.parse("3.14") {
        Ok(Expression::Number(n)) => assert_eq!(n, Num::from_units(3_140_000)),
        _ => panic!("Expected Number expression"),
    }
}

#[test]
fn test_parse_variable() {
    let parser = Parser::new();
    match parser.parse("x") {
        Ok(Expression::Variable(name)) => assert_eq!(name, "x"),
        _ => panic!("Expected Variable expression"),
    }
}

#[test]
fn test_parse_addition() {
    let parser = Parser::new();
    match parser.parse("2 + 3") {
        Ok(Expression::BinaryOp { op, left, right }) => {
            assert!(matches!(op, Operator::Add));
            assert!(matches!(*left, Expression::Number(n) if n == Num::from_int(2)));
            assert!(matches!(*right, Expression::Number(n) if n == Num::from_int(3)));
        }
        _ => panic!("Expected BinaryOp expression"),
    }
}

#[test]
fn test_parse_subtraction() {
    let parser = Parser::new();
    match parser.parse("10 - 5") {
        Ok(Expression::BinaryOp { op, left, right }) => {
            assert!(matches!(op, Operator::Subtract));
            assert!(matches!(*left, Expression::Number(n) if n == Num::from_int(10)));
            assert!(matches!(*right, Expression::Number(n) if n == Num::from_int(5)));
        }
        _ => panic!("Expected BinaryOp expression"),
    }
}

#[test]
fn test_parse_multiplication() {
    let parser = Parser::new();
    match parser.parse("4 * 5") {
        Ok(Expression::BinaryOp { op, left, right }) => {
            assert!(matches!(op, Operator::Multiply));
            assert!(matches!(*left, Expression::Number(n) if n == Num::from_int(4)));
            assert!(matches!(*right, Expression::Number(n) if n == Num::from_int(5)));
        }
        _ => panic!("Expected BinaryOp expression"),
    }
}

#[test]
fn test_parse_division() {
    let parser = Parser::new();
    match parser.parse("20 / 4") {
        Ok(Expression::BinaryOp { op, left, right }) => {
            assert!(matches!(op, Operator::Divide));
            assert!(matches!(*left, Expression::Number(n) if n == Num::from_int(20)));
            assert!(matches!(*right, Expression::Number(n) if n == Num::from_int(4)));
        }
        _ => panic!("Expected BinaryOp expression"),
    }
}

#[test]
fn test_operator_precedence_multiply_before_add() {
    let parser = Parser::new();
    // 2 + 3 * 4 should parse as 2 + (3 * 4)
    match parser.parse("2 + 3 * 4") {
        Ok(Expression::BinaryOp { op: Operator::Add, left, right }) => {
            assert!(matches!(*left, Expression::Number(n) if n == Num::from_int(2)));
            assert!(matches!(*right, Expression::BinaryOp { op: Operator::Multiply, .. }));
        }
        _ => panic!("Expected Add with Multiply on right"),
    }
}

#[test]
fn test_parentheses_override_precedence() {
    let parser = Parser::new();
    // (2 + 3) * 4 should parse as (2 + 3) * 4
    match parser.parse("(2 + 3) * 4") {
        Ok(Expression::BinaryOp { op: Operator::Multiply, left, right }) => {
            assert!(matches!(*left, Expression::BinaryOp { op: Operator::Add, .. }));
            assert!(matches!(*right, Expression::Number(n) if n == Num::from_int(4)));
        }
        _ => panic!("Expected Multiply with Add on left"),
    }
}

#[test]
fn test_nested_parentheses() {
    let parser = Parser::new();
    let result = parser.parse("((2 + 3) * 4) / 2");
    assert!(result.is_ok());
}

#[test]
fn test_text_multiplier_billion() {
    let parser = Parser::new();
    match parser.parse("1 b") {
        Ok(Expression::Number(n)) => assert_eq!(n, Num::from_int(1_000_000_000)),
        _ => panic!("Expected Number with billion multiplier"),
    }
}

#[test]
fn test_text_multiplier_million() {
    let parser = Parser::new();
    match parser.parse("5 m") {
        Ok(Expression::Number(n)) => assert_eq!(n, Num::from_int(5_000_000)),
        _ => panic!("Expected Number with million multiplier"),
    }
}

#[test]
fn test_text_multiplier_crore() {
    let parser = Parser::new();
    match parser.parse("2 cr") {
        Ok(Expression::Number(n)) => assert_eq!(n, Num::from_int(20_000_000)),
        _ => panic!("Expected Number with crore multiplier"),
    }
}

#[test]
fn test_text_multiplier_lakh() {
    let parser = Parser::new();
    match parser.parse("3 lakh") {
        Ok(Expression::Number(n)) => assert_eq!(n, Num::from_int(300_000)),
        _ => panic!("Expected Number with lakh multiplier"),
    }
}

#[test]
fn test_text_multiplier_in_expression() {
    let parser = Parser::new();
    // 1 b / 4
    match parser.parse("1 b / 4") {
        Ok(Expression::BinaryOp { op: Operator::Divide, left, right }) => {
            assert!(matches!(*left, Expression::Number(n) if n == Num::from_int(1_000_000_000)));
            assert!(matches!(*right, Expression::Number(n) if n == Num::from_int(4)));
        }
        _ => panic!("Expected division with billion"),
    }
}

#[test]
fn test_currency_annotation_usd() {
    let parser = Parser::new();
    match parser.parse("100 USD") {
        Ok(Expression::CurrencyAnnotation { value, currency }) => {
            assert!(matches!(*value, Expression::Number(n) if n == Num::from_int(100)));
            assert_eq!(currency, "USD");
        }
        _ => panic!("Expected CurrencyAnnotation"),
    }
}

#[test]
fn test_currency_annotation_symbol() {
    let parser = Parser::new();
    match parser.parse("50 €") {
        Ok(Expression::CurrencyAnnotation { value, currency }) => {
            assert!(matches!(*value, Expression::Number(n) if n == Num::from_int(50)));
            assert_eq!(currency, "EUR");
        }
        _ => panic!("Expected CurrencyAnnotation with EUR"),
    }
}

#[test]
fn test_simple_currency_conversion() {
    let parser = Parser::new();
    match parser.parse("100 USD to INR") {
        Ok(Expression::CurrencyConversion { source, target_currency }) => {
            assert_eq!(target_currency, "INR");
            assert!(matches!(*source, Expression::CurrencyAnnotation { .. }));
        }
        _ => panic!("Expected CurrencyConversion"),
    }
}

#[test]
fn test_currency_conversion_with_division() {
    let parser = Parser::new();
    // "100 USD to INR / 4" is ambiguous; the conversion has the lowest
    // precedence, so the intended meaning needs explicit parentheses.
    let result = parser.parse("(100 USD to INR) / 4");
    assert!(result.is_ok(), "Failed to parse: (100 USD to INR) / 4");

    match result.unwrap() {
        Expression::BinaryOp { op: Operator::Divide, left, right } => {
            assert!(matches!(*left, Expression::CurrencyConversion { .. }));
            assert!(matches!(*right, Expression::Number(n) if n == Num::from_int(4)));
        }
        _ => panic!("Expected division with currency conversion in parentheses"),
    }
}

#[test]
fn test_currency_conversion_with_parentheses() {
    let parser = Parser::new();

    match parser.parse("100 USD to EUR") {
        Ok(Expression::CurrencyConversion { source, target_currency }) => {
            assert_eq!(target_currency, "EUR");
            assert!(matches!(*source, Expression::CurrencyAnnotation { .. }));
        }
        _ => panic!("Expected CurrencyConversion"),
    }

    let result = parser.parse("(50 USD + 50 USD) to EUR");
    assert!(result.is_ok(), "Failed to parse: (50 USD + 50 USD) to EUR");
}

#[test]
fn test_assignment() {
    let parser = Parser::new();
    match parser.parse("x = 100") {
        Ok(Expression::Assignment { var, expr }) => {
            assert_eq!(var, "x");
            assert!(matches!(*expr, Expression::Number(n) if n == Num::from_int(100)));
        }
        _ => panic!("Expected Assignment"),
    }
}

#[test]
fn test_assignment_with_expression() {
    let parser = Parser::new();
    match parser.parse("y = 50 + 50") {
        Ok(Expression::Assignment { var, expr }) => {
            assert_eq!(var, "y");
            assert!(matches!(*expr, Expression::BinaryOp { .. }));
        }
        _ => panic!("Expected Assignment with expression"),
    }
}

#[test]
fn test_error_empty_input() {
    let parser = Parser::new();
    assert!(parser.parse("").is_err());
    assert!(parser.parse("   ").is_err());
}

#[test]
fn test_error_missing_closing_paren() {
    let parser = Parser::new();
    assert!(parser.parse("(2 + 3").is_err());
}

#[test]
fn test_error_missing_operand() {
    let parser = Parser::new();
    assert!(parser.parse("5 +").is_err());
}

#[test]
fn test_normalize_currency() {
    assert_eq!(normalize_currency("$"), "USD");
    assert_eq!(normalize_currency("USD"), "USD");
    assert_eq!(normalize_currency("€"), "EUR");
    assert_eq!(normalize_currency("EUR"), "EUR");
    assert_eq!(normalize_currency("₹"), "INR");
    assert_eq!(normalize_currency("INR"), "INR");
}

#[test]
fn test_is_currency() {
    assert!(is_currency("USD"));
    assert!(is_currency("$"));
    assert!(is_currency("EUR"));
    assert!(is_currency("€"));
    assert!(is_currency("INR"));
    assert!(is_currency("₹"));
    assert!(!is_currency("XYZ"));
    assert!(!is_currency("foo"));
}

#[test]
fn test_text_to_multiplier() {
    assert_eq!(text_to_multiplier("billion"), 1_000_000_000);
    assert_eq!(text_to_multiplier("b"), 1_000_000_000);
    assert_eq!(text_to_multiplier("million"), 1_000_000);
    assert_eq!(text_to_multiplier("m"), 1_000_000);
    assert_eq!(text_to_multiplier("crore"), 10_000_000);
    assert_eq!(text_to_multiplier("cr"), 10_000_000);
    assert_eq!(text_to_multiplier("lakh"), 100_000);
    assert_eq!(text_to_multiplier("lac"), 100_000);
    assert_eq!(text_to_multiplier("thousand"), 1_000);
    assert_eq!(text_to_multiplier("k"), 1_000);
}

#[test]
fn test_tokenize_magnitude_folding() {
    let tokens = tokenize("1 b");
    assert_eq!(tokens, vec!["1000000000".to_string()]);
    let tokens = tokenize("2 cr");
    assert_eq!(tokens, vec!["20000000".to_string()]);
}

#[test]
fn test_tokenize_splits_operators() {
    let tokens = tokenize("2+(3 * 4)");
    assert_eq!(
        tokens,
        vec!["2", "+", "(", "3", "*", "4", ")"]
            .into_iter()
            .map(|s| s.to_string())
            .collect::<Vec<String>>()
    );
}

#[test]
fn test_tokenize_fractional_fold() {
    let tokens = tokenize("1.5 m");
    assert_eq!(tokens, vec!["1500000".to_string()]);
    let tokens = tokenize("0.0015 k");
    assert_eq!(tokens, vec!["1.5".to_string()]);
}

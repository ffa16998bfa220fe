// Tests for the library's documented properties: purity of evaluation,
// read-after-write, precedence, error variants, formatting boundaries,
// grouping patterns, magnitude folding, the conversion round trip, and the
// left-only currency extraction.

use indumi::calc::{Calculator, EvalError};
use indumi::currency::{ConvertError, CurrencyConverter};
use indumi::format::{format_number, format_with_separator};
use indumi::num::Num;
use indumi::parser::{Expression, Operator, ParseError, Parser};

fn new_calculator() -> Calculator {
    Calculator::new(CurrencyConverter::new(CurrencyConverter::fallback_rates()))
}

#[test]
fn test_evaluating_twice_is_identical() {
    // An expression without conversions or assignments evaluates to the
    // same value on every run against the same environment.
    let mut calc = new_calculator();
    let parser = Parser::new();
    let expr = parser.parse("2 + 3 * 4 - 1").unwrap();
    let first = calc.evaluate(&expr).unwrap();
    let second = calc.evaluate(&expr).unwrap();
    assert_eq!(first, second);
    assert_eq!(first, Num::from_int(13));
}

#[test]
fn test_read_after_write_exact() {
    let mut calc = new_calculator();
    let assign = Expression::Assignment {
        var: "x".to_string(),
        expr: Box::new(Expression::Number(Num::from_units(2_500_000))),
    };
    assert_eq!(calc.evaluate(&assign).unwrap(), Num::from_units(2_500_000));
    let read = Expression::Variable("x".to_string());
    assert_eq!(calc.evaluate(&read).unwrap(), Num::from_units(2_500_000));
}

#[test]
fn test_precedence_values() {
    let mut calc = new_calculator();
    let parser = Parser::new();
    let e1 = parser.parse("2 + 3 * 4").unwrap();
    assert_eq!(calc.evaluate(&e1).unwrap(), Num::from_int(14));
    let e2 = parser.parse("(2 + 3) * 4").unwrap();
    assert_eq!(calc.evaluate(&e2).unwrap(), Num::from_int(20));
}

#[test]
fn test_division_by_zero_variant() {
    let mut calc = new_calculator();
    let parser = Parser::new();
    let e = parser.parse("10 / 0").unwrap();
    assert!(matches!(calc.evaluate(&e), Err(EvalError::DivisionByZero)));
}

#[test]
fn test_undefined_variable_variant() {
    let mut calc = new_calculator();
    let parser = Parser::new();
    let e = parser.parse("undefined + 5").unwrap();
    assert!(matches!(calc.evaluate(&e), Err(EvalError::UndefinedVariable(n)) if n == "undefined"));
}

#[test]
fn test_missing_currency_annotation_variant() {
    let mut calc = new_calculator();
    let parser = Parser::new();
    let e = parser.parse("5 to USD").unwrap();
    assert!(matches!(calc.evaluate(&e), Err(EvalError::MissingCurrencyAnnotation)));
}

#[test]
fn test_unknown_currency_variant() {
    let mut calc = new_calculator();
    let parser = Parser::new();
    let e = parser.parse("5 USD to XYZ").unwrap();
    assert!(matches!(calc.evaluate(&e), Err(EvalError::UnknownCurrency(c)) if c == "XYZ"));
}

#[test]
fn test_out_of_range_variant() {
    let mut calc = new_calculator();
    let parser = Parser::new();
    let e = parser.parse("9000000000000 * 9000000000000").unwrap();
    assert!(matches!(calc.evaluate(&e), Err(EvalError::OutOfRange)));
}

#[test]
fn test_parse_error_variants() {
    let parser = Parser::new();
    assert!(matches!(parser.parse(""), Err(ParseError::EmptyInput)));
    assert!(matches!(parser.parse("(2 + 3"), Err(ParseError::UnmatchedParenthesis)));
    assert!(matches!(parser.parse("5 +"), Err(ParseError::MissingOperand)));
    assert!(matches!(parser.parse("@"), Err(ParseError::UnparseableToken(t)) if t == "@"));
    assert!(matches!(
        parser.parse("5 to"),
        Err(ParseError::MissingCurrencyAfterConversionKeyword)
    ));
}

#[test]
fn test_estimate_boundaries() {
    assert_eq!(format_number(Num::from_int(999)), "999");
    assert_eq!(format_number(Num::from_int(1000)), "1,000 (1 K)");
    assert!(format_number(Num::from_int(1_000_000)).contains("1 M"));
    assert!(format_number(Num::from_int(1_000_000_000)).contains("1 B"));
}

#[test]
fn test_grouping_patterns() {
    assert_eq!(format_with_separator(Num::from_int(1234567), false), "1,234,567");
    assert_eq!(format_with_separator(Num::from_int(12345678), true), "1,23,45,678");
}

#[test]
fn test_conversion_round_trip() {
    let converter = CurrencyConverter::new(CurrencyConverter::fallback_rates());
    let there = converter.convert(Num::from_int(100), "USD", "INR").unwrap();
    let back = converter.convert(there, "INR", "USD").unwrap();
    let diff = back.units() - Num::from_int(100).units();
    assert!(diff.abs() <= 10_000, "round trip drifted by {} millionths", diff);
}

#[test]
fn test_unknown_currency_in_convert() {
    let converter = CurrencyConverter::new(CurrencyConverter::fallback_rates());
    assert!(matches!(
        converter.convert(Num::from_int(1), "USD", "ZZZ"),
        Err(ConvertError::UnknownCurrency(c)) if c == "ZZZ"
    ));
    assert!(matches!(
        converter.convert(Num::from_int(1), "ZZZ", "USD"),
        Err(ConvertError::UnknownCurrency(c)) if c == "ZZZ"
    ));
}

#[test]
fn test_extraction_asymmetry() {
    let mut calc = new_calculator();
    let annotated = |v: i64| Expression::CurrencyAnnotation {
        value: Box::new(Expression::Number(Num::from_int(v))),
        currency: "USD".to_string(),
    };

    // Annotation on the left: extraction finds USD and conversion succeeds.
    let left_annotated = Expression::CurrencyConversion {
        source: Box::new(Expression::BinaryOp {
            op: Operator::Add,
            left: Box::new(annotated(50)),
            right: Box::new(Expression::Number(Num::from_int(50))),
        }),
        target_currency: "EUR".to_string(),
    };
    assert!(calc.evaluate(&left_annotated).is_ok());

    // Annotation only on the right: extraction fails even though the right
    // operand carries one.
    let right_annotated = Expression::CurrencyConversion {
        source: Box::new(Expression::BinaryOp {
            op: Operator::Add,
            left: Box::new(Expression::Number(Num::from_int(50))),
            right: Box::new(annotated(50)),
        }),
        target_currency: "EUR".to_string(),
    };
    assert!(matches!(
        calc.evaluate(&right_annotated),
        Err(EvalError::MissingCurrencyAnnotation)
    ));
}

#[test]
fn test_power_by_direct_construction() {
    let mut calc = new_calculator();
    let pow = |b: i64, e: Num| Expression::BinaryOp {
        op: Operator::Power,
        left: Box::new(Expression::Number(Num::from_int(b))),
        right: Box::new(Expression::Number(e)),
    };
    assert_eq!(calc.evaluate(&pow(2, Num::from_int(10))).unwrap(), Num::from_int(1024));
    assert_eq!(calc.evaluate(&pow(2, Num::from_int(-1))).unwrap(), Num::from_units(500_000));
    // a fractional exponent is not representable
    assert!(matches!(
        calc.evaluate(&pow(2, Num::from_units(500_000))),
        Err(EvalError::OutOfRange)
    ));
}

#[test]
fn test_modulo_by_direct_construction() {
    let mut calc = new_calculator();
    let rem = |a: i64, b: i64| Expression::BinaryOp {
        op: Operator::Modulo,
        left: Box::new(Expression::Number(Num::from_int(a))),
        right: Box::new(Expression::Number(Num::from_int(b))),
    };
    assert_eq!(calc.evaluate(&rem(7, 3)).unwrap(), Num::from_int(1));
    // the remainder's sign follows the dividend
    assert_eq!(calc.evaluate(&rem(-7, 3)).unwrap(), Num::from_int(-1));
    assert!(matches!(calc.evaluate(&rem(7, 0)), Err(EvalError::DivisionByZero)));
}

#[test]
fn test_failed_assignment_leaves_environment_unchanged() {
    let mut calc = new_calculator();
    assert_eq!(calc.evaluate_line("x = 5").unwrap(), "5");
    let failed = calc.evaluate_line("x = 1 / 0").unwrap();
    assert!(failed.contains("Error"));
    assert_eq!(calc.evaluate_line("x").unwrap(), "5");
}

#[test]
fn test_unrecognized_currency_prints_its_code() {
    // a code without a symbol is itself the symbol
    let shown = indumi::format::format_currency(Num::from_int(5000), "GBP");
    assert_eq!(shown, "GBP 5,000 (5 K)");
}

#[test]
fn test_fraction_carry_rounds_up_whole() {
    // 1.999 rounds half-up at two decimals and carries into the whole part
    assert_eq!(format_with_separator(Num::from_units(1_999_000), false), "2");
    assert_eq!(format_with_separator(Num::from_units(1_994_999), false), "1.99");
}

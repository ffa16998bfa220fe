//! The evaluator: walks an expression tree against a mutable variable
//! environment and the session's rate table.
//!
//! [`Calculator::evaluate`] is proved to return exactly what the spec
//! evaluator [`eval_spec`] gives, and to leave the environment exactly as
//! [`eval_spec`] says: an assignment stores its value only on success, and
//! the rate table never changes.

use vstd::prelude::*;
use vstd::string::*;
use crate::num::{Num, SCALE, MAX_UNITS, mag, in_range, fp_mul, fp_div, fp_rem, fp_pow};
use crate::parser::{Expression, ExprV, Operator, Parser, ParseError, ParseIssue, parse_line_spec};
use crate::currency::{CurrencyConverter, ConvertError, ConvertIssue, convert_spec};
use crate::format::{
    format_number, format_currency, format_number_spec, format_currency_spec,
};
use crate::table::StrMap;
use crate::text::{trim, trim_spec};

verus! {

/// Why an evaluation failed.
#[derive(Debug)]
pub enum EvalError {
    UndefinedVariable(String),
    DivisionByZero,
    MissingCurrencyAnnotation,
    UnknownCurrency(String),
    OutOfRange,
}

/// The spec-level shape of an [`EvalError`].
#[verifier::ext_equal]
pub enum EvalIssue {
    Undefined(Seq<char>),
    DivZero,
    NoAnnotation,
    Unknown(Seq<char>),
    OutOfRange,
}

impl View for EvalError {
    type V = EvalIssue;

    open spec fn view(&self) -> EvalIssue {
        match self {
            EvalError::UndefinedVariable(n) => EvalIssue::Undefined(n@),
            EvalError::DivisionByZero => EvalIssue::DivZero,
            EvalError::MissingCurrencyAnnotation => EvalIssue::NoAnnotation,
            EvalError::UnknownCurrency(c) => EvalIssue::Unknown(c@),
            EvalError::OutOfRange => EvalIssue::OutOfRange,
        }
    }
}

/// A conversion failure as an evaluation failure.
pub open spec fn conv_issue(c: ConvertIssue) -> EvalIssue {
    match c {
        ConvertIssue::Unknown(code) => EvalIssue::Unknown(code),
        ConvertIssue::OutOfRange => EvalIssue::OutOfRange,
    }
}

/// What `left op right` evaluates to: exact fixed-point arithmetic, division
/// and modulo refusing a zero divisor, and any result outside the
/// representable range refused.
pub open spec fn apply_op_spec(op: Operator, a: int, b: int) -> Result<int, EvalIssue> {
    match op {
        Operator::Add => if in_range(a + b) {
            Ok(a + b)
        } else {
            Err(EvalIssue::OutOfRange)
        },
        Operator::Subtract => if in_range(a - b) {
            Ok(a - b)
        } else {
            Err(EvalIssue::OutOfRange)
        },
        Operator::Multiply => if in_range(fp_mul(a, b)) {
            Ok(fp_mul(a, b))
        } else {
            Err(EvalIssue::OutOfRange)
        },
        Operator::Divide => if b == 0 {
            Err(EvalIssue::DivZero)
        } else if in_range(fp_div(a, b)) {
            Ok(fp_div(a, b))
        } else {
            Err(EvalIssue::OutOfRange)
        },
        Operator::Modulo => if b == 0 {
            Err(EvalIssue::DivZero)
        } else {
            Ok(fp_rem(a, b))
        },
        Operator::Power => pow_spec(a, b),
    }
}

/// What `a ^ b` evaluates to: only exponents whose magnitude is a whole
/// number are representable; a negative exponent inverts the positive power.
pub open spec fn pow_spec(a: int, b: int) -> Result<int, EvalIssue> {
    if mag(b) % (SCALE as int) != 0 {
        Err(EvalIssue::OutOfRange)
    } else {
        let n = (mag(b) / (SCALE as int)) as nat;
        match fp_pow(a, n) {
            None => Err(EvalIssue::OutOfRange),
            Some(p) => if b >= 0 {
                Ok(p)
            } else if p == 0 {
                Err(EvalIssue::DivZero)
            } else if in_range(fp_div(SCALE as int, p)) {
                Ok(fp_div(SCALE as int, p))
            } else {
                Err(EvalIssue::OutOfRange)
            },
        }
    }
}

/// The currency a conversion source carries: an annotation's own code, or
/// the code found in the left operand of a binary operation. The right
/// operand is never inspected.
pub open spec fn extract_currency_spec(e: ExprV) -> Option<Seq<char>>
    decreases e,
{
    match e {
        ExprV::CurrencyAnnotation { currency, .. } => Some(currency),
        ExprV::BinaryOp { left, .. } => extract_currency_spec(*left),
        _ => None,
    }
}

/// What an expression evaluates to, and the environment it leaves behind.
/// Operands evaluate left before right; an assignment stores its value only
/// when its right-hand side succeeded.
pub open spec fn eval_spec(
    e: ExprV,
    env: Map<Seq<char>, int>,
    rates: Map<Seq<char>, int>,
) -> (Result<int, EvalIssue>, Map<Seq<char>, int>)
    decreases e,
{
    match e {
        ExprV::Number(n) => (Ok(n), env),
        ExprV::Variable(name) => if env.contains_key(name) {
            (Ok(env[name]), env)
        } else {
            (Err(EvalIssue::Undefined(name)), env)
        },
        ExprV::CurrencyAnnotation { value, .. } => eval_spec(*value, env, rates),
        ExprV::CurrencyConversion { source, target_currency } => {
            let (r1, env1) = eval_spec(*source, env, rates);
            match r1 {
                Err(x) => (Err(x), env1),
                Ok(amount) => match extract_currency_spec(*source) {
                    None => (Err(EvalIssue::NoAnnotation), env1),
                    Some(from) => match convert_spec(rates, amount, from, target_currency) {
                        Ok(v) => (Ok(v), env1),
                        Err(ci) => (Err(conv_issue(ci)), env1),
                    },
                },
            }
        },
        ExprV::BinaryOp { op, left, right } => {
            let (r1, env1) = eval_spec(*left, env, rates);
            match r1 {
                Err(x) => (Err(x), env1),
                Ok(a) => {
                    let (r2, env2) = eval_spec(*right, env1, rates);
                    match r2 {
                        Err(x) => (Err(x), env2),
                        Ok(b) => (apply_op_spec(op, a, b), env2),
                    }
                },
            }
        },
        ExprV::Assignment { var, expr } => {
            let (r1, env1) = eval_spec(*expr, env, rates);
            match r1 {
                Err(x) => (Err(x), env1),
                Ok(v) => (Ok(v), env1.insert(var, v)),
            }
        },
    }
}

/// The expression holds a conversion node somewhere.
pub open spec fn has_conversion(e: ExprV) -> bool
    decreases e,
{
    match e {
        ExprV::Number(_) => false,
        ExprV::Variable(_) => false,
        ExprV::BinaryOp { left, right, .. } => has_conversion(*left) || has_conversion(*right),
        ExprV::Assignment { expr, .. } => has_conversion(*expr),
        ExprV::CurrencyAnnotation { value, .. } => has_conversion(*value),
        ExprV::CurrencyConversion { .. } => true,
    }
}

/// The expression holds an assignment node somewhere.
pub open spec fn has_assignment(e: ExprV) -> bool
    decreases e,
{
    match e {
        ExprV::Number(_) => false,
        ExprV::Variable(_) => false,
        ExprV::BinaryOp { left, right, .. } => has_assignment(*left) || has_assignment(*right),
        ExprV::Assignment { .. } => true,
        ExprV::CurrencyAnnotation { value, .. } => has_assignment(*value),
        ExprV::CurrencyConversion { source, .. } => has_assignment(*source),
    }
}

/// Evaluation is pure: its result and its effect on the environment are a
/// function of the expression, the environment and the rate table alone.
pub proof fn lemma_eval_pure(
    e1: ExprV,
    e2: ExprV,
    env1: Map<Seq<char>, int>,
    env2: Map<Seq<char>, int>,
    rates1: Map<Seq<char>, int>,
    rates2: Map<Seq<char>, int>,
)
    requires
        e1 == e2,
        env1 == env2,
        rates1 == rates2,
    ensures
        eval_spec(e1, env1, rates1) == eval_spec(e2, env2, rates2),
{
}

/// An expression without conversion nodes evaluates the same under any rate
/// table: outside a conversion, nothing depends on the rates.
pub proof fn lemma_eval_rates_independent(
    e: ExprV,
    env: Map<Seq<char>, int>,
    rates1: Map<Seq<char>, int>,
    rates2: Map<Seq<char>, int>,
)
    requires
        !has_conversion(e),
    ensures
        eval_spec(e, env, rates1) == eval_spec(e, env, rates2),
    decreases e,
{
    match e {
        ExprV::Number(_) => {},
        ExprV::Variable(_) => {},
        ExprV::BinaryOp { op, left, right } => {
            lemma_eval_rates_independent(*left, env, rates1, rates2);
            let (r1, enva) = eval_spec(*left, env, rates1);
            lemma_eval_rates_independent(*right, enva, rates1, rates2);
        },
        ExprV::Assignment { var, expr } => {
            lemma_eval_rates_independent(*expr, env, rates1, rates2);
        },
        ExprV::CurrencyAnnotation { value, .. } => {
            lemma_eval_rates_independent(*value, env, rates1, rates2);
        },
        ExprV::CurrencyConversion { .. } => {},
    }
}

/// An expression without assignment nodes leaves the environment exactly as
/// it found it.
pub proof fn lemma_eval_env_unchanged(e: ExprV, env: Map<Seq<char>, int>, rates: Map<Seq<char>, int>)
    requires
        !has_assignment(e),
    ensures
        eval_spec(e, env, rates).1 == env,
    decreases e,
{
    match e {
        ExprV::Number(_) => {},
        ExprV::Variable(_) => {},
        ExprV::BinaryOp { op, left, right } => {
            lemma_eval_env_unchanged(*left, env, rates);
            let (r1, enva) = eval_spec(*left, env, rates);
            lemma_eval_env_unchanged(*right, enva, rates);
        },
        ExprV::Assignment { .. } => {},
        ExprV::CurrencyAnnotation { value, .. } => {
            lemma_eval_env_unchanged(*value, env, rates);
        },
        ExprV::CurrencyConversion { source, .. } => {
            lemma_eval_env_unchanged(*source, env, rates);
        },
    }
}

/// Evaluating an expression without assignment nodes twice in a row yields
/// the identical result both times, with the environment untouched.
pub proof fn lemma_eval_twice(e: ExprV, env: Map<Seq<char>, int>, rates: Map<Seq<char>, int>)
    requires
        !has_assignment(e),
    ensures
        ({
            let (r1, env1) = eval_spec(e, env, rates);
            env1 == env && eval_spec(e, env1, rates) == (r1, env1)
        }),
{
    lemma_eval_env_unchanged(e, env, rates);
}

/// Assigning a value to a name and then reading that name yields exactly
/// the assigned value.
pub proof fn lemma_read_after_write(
    name: Seq<char>,
    e: ExprV,
    env: Map<Seq<char>, int>,
    rates: Map<Seq<char>, int>,
)
    ensures
        ({
            let (r, env1) = eval_spec(
                ExprV::Assignment { var: name, expr: Box::new(e) },
                env,
                rates,
            );
            r matches Ok(v) ==> eval_spec(ExprV::Variable(name), env1, rates) == (
                Ok::<int, EvalIssue>(v),
                env1,
            )
        }),
{
}

/// Currency extraction looks only at the left operand of a binary
/// operation: whatever annotation the right operand carries is never seen.
pub proof fn lemma_extract_left_only(op: Operator, l: ExprV, r: ExprV)
    ensures
        extract_currency_spec(ExprV::BinaryOp { op, left: Box::new(l), right: Box::new(r) })
            == extract_currency_spec(l),
{
}

/// Exec arithmetic step; returns what [`apply_op_spec`] gives.
fn apply_op(op: Operator, a: Num, b: Num) -> (r: Result<Num, EvalError>)
    requires
        a.wf(),
        b.wf(),
    ensures
        match r {
            Ok(v) => apply_op_spec(op, a@, b@) == Ok::<int, EvalIssue>(v@) && v.wf(),
            Err(e) => apply_op_spec(op, a@, b@) == Err::<int, EvalIssue>(e@),
        },
{
    match op {
        Operator::Add => match a.checked_add(b) {
            Some(v) => Ok(v),
            None => Err(EvalError::OutOfRange),
        },
        Operator::Subtract => match a.checked_sub(b) {
            Some(v) => Ok(v),
            None => Err(EvalError::OutOfRange),
        },
        Operator::Multiply => match a.checked_mul(b) {
            Some(v) => Ok(v),
            None => Err(EvalError::OutOfRange),
        },
        Operator::Divide => {
            if b.is_zero() {
                Err(EvalError::DivisionByZero)
            } else {
                match a.checked_div(b) {
                    Some(v) => Ok(v),
                    None => Err(EvalError::OutOfRange),
                }
            }
        },
        Operator::Modulo => {
            if b.is_zero() {
                Err(EvalError::DivisionByZero)
            } else {
                Ok(a.rem(b))
            }
        },
        Operator::Power => {
            let bu = b.mag_units();
            if bu % (SCALE as u64) != 0 {
                return Err(EvalError::OutOfRange);
            }
            let n = bu / (SCALE as u64);
            match a.checked_pow(n) {
                None => Err(EvalError::OutOfRange),
                Some(p) => {
                    if !b.is_neg() {
                        Ok(p)
                    } else if p.is_zero() {
                        Err(EvalError::DivisionByZero)
                    } else {
                        match Num::one().checked_div(p) {
                            Some(v) => Ok(v),
                            None => Err(EvalError::OutOfRange),
                        }
                    }
                },
            }
        },
    }
}

/// The message a parse failure displays.
pub open spec fn parse_issue_text(p: ParseIssue) -> Seq<char> {
    match p {
        ParseIssue::Empty => "Empty input"@,
        ParseIssue::Unclosed => "Expected closing parenthesis"@,
        ParseIssue::Missing => "Expected expression"@,
        ParseIssue::Bad(t) => "Cannot parse: "@ + t,
        ParseIssue::NoCurrency => "Expected currency after 'to'"@,
    }
}

/// The message an evaluation failure displays.
pub open spec fn eval_issue_text(e: EvalIssue) -> Seq<char> {
    match e {
        EvalIssue::Undefined(n) => "Undefined variable: "@ + n,
        EvalIssue::DivZero => "Division by zero"@,
        EvalIssue::NoAnnotation => "Expression does not have a currency annotation"@,
        EvalIssue::Unknown(c) => "Unknown currency: "@ + c,
        EvalIssue::OutOfRange => "Number out of range"@,
    }
}

/// The target currency a parsed line carries, when its outermost node is a
/// conversion; only then is the result displayed as a currency amount.
pub open spec fn conversion_target(e: ExprV) -> Option<Seq<char>> {
    match e {
        ExprV::CurrencyConversion { target_currency, .. } => Some(target_currency),
        _ => None,
    }
}

/// What one line displays, and the environment it leaves behind: nothing
/// for blank input; the formatted value of the parsed expression, as a
/// currency amount when the line is a conversion; or a line naming the
/// parse or evaluation failure.
pub open spec fn evaluate_line_spec(
    line: Seq<char>,
    env: Map<Seq<char>, int>,
    rates: Map<Seq<char>, int>,
) -> (Option<Seq<char>>, Map<Seq<char>, int>) {
    if trim_spec(line).len() == 0 {
        (None, env)
    } else {
        match parse_line_spec(line) {
            Err(pe) => (Some("Parse error: "@ + parse_issue_text(pe)), env),
            Ok(e) => {
                let (r, env2) = eval_spec(e, env, rates);
                match r {
                    Err(ee) => (Some("Error: "@ + eval_issue_text(ee)), env2),
                    Ok(v) => match conversion_target(e) {
                        Some(c) => (Some(format_currency_spec(v, c)), env2),
                        None => (Some(format_number_spec(v)), env2),
                    },
                }
            },
        }
    }
}

/// Exec message of a parse failure, per [`parse_issue_text`].
pub fn parse_error_message(e: &ParseError) -> (r: String)
    ensures
        r@ == parse_issue_text(e@),
{
    match e {
        ParseError::EmptyInput => String::from_str("Empty input"),
        ParseError::UnmatchedParenthesis => String::from_str("Expected closing parenthesis"),
        ParseError::MissingOperand => String::from_str("Expected expression"),
        ParseError::UnparseableToken(t) => String::from_str("Cannot parse: ").concat(t.as_str()),
        ParseError::MissingCurrencyAfterConversionKeyword => String::from_str(
            "Expected currency after 'to'",
        ),
    }
}

/// Exec message of an evaluation failure, per [`eval_issue_text`].
pub fn eval_error_message(e: &EvalError) -> (r: String)
    ensures
        r@ == eval_issue_text(e@),
{
    match e {
        EvalError::UndefinedVariable(n) => String::from_str("Undefined variable: ").concat(
            n.as_str(),
        ),
        EvalError::DivisionByZero => String::from_str("Division by zero"),
        EvalError::MissingCurrencyAnnotation => String::from_str(
            "Expression does not have a currency annotation",
        ),
        EvalError::UnknownCurrency(c) => String::from_str("Unknown currency: ").concat(c.as_str()),
        EvalError::OutOfRange => String::from_str("Number out of range"),
    }
}

/// The calculator: a variable environment and the session's rate table.
pub struct Calculator {
    variables: StrMap,
    converter: CurrencyConverter,
}

impl Calculator {
    /// Environment and rate table are well formed.
    pub closed spec fn wf(self) -> bool {
        self.variables.wf() && self.converter.wf()
    }

    /// The variable environment, as a map from name to value.
    pub closed spec fn env(self) -> Map<Seq<char>, int> {
        self.variables@
    }

    /// The rate table, as a map from currency code to rate.
    pub closed spec fn rates(self) -> Map<Seq<char>, int> {
        self.converter@
    }

    /// A calculator with an empty environment over the given rate table.
    pub fn new(converter: CurrencyConverter) -> (r: Calculator)
        requires
            converter.wf(),
        ensures
            r.wf(),
            r.env() == Map::<Seq<char>, int>::empty(),
            r.rates() == converter@,
    {
        Calculator { variables: StrMap::new(), converter }
    }

    /// The currency code a conversion source carries, per
    /// [`extract_currency_spec`]: an annotation's code, else the left
    /// operand of a binary operation, searched recursively; nothing else.
    pub fn extract_currency(&self, expr: &Expression) -> (r: Option<String>)
        ensures
            match r {
                Some(c) => extract_currency_spec(expr@) == Some(c@),
                None => extract_currency_spec(expr@) is None,
            },
        decreases expr,
    {
        match expr {
            Expression::CurrencyAnnotation { currency, .. } => Some(currency.clone()),
            Expression::BinaryOp { left, .. } => self.extract_currency(left),
            _ => None,
        }
    }

    /// Evaluate an expression. The result and the new environment are
    /// exactly what [`eval_spec`] gives on the old environment; the rate
    /// table is untouched.
    pub fn evaluate(&mut self, expr: &Expression) -> (r: Result<Num, EvalError>)
        requires
            old(self).wf(),
        ensures
            final(self).wf(),
            final(self).rates() == old(self).rates(),
            ({
                let (rs, env2) = eval_spec(expr@, old(self).env(), old(self).rates());
                final(self).env() == env2 && match r {
                    Ok(v) => rs == Ok::<int, EvalIssue>(v@) && v.wf(),
                    Err(e) => rs == Err::<int, EvalIssue>(e@),
                }
            }),
        decreases expr,
    {
        match expr {
            Expression::Number(n) => {
                proof {
                    use_type_invariant(*n);
                }
                Ok(*n)
            },
            Expression::Variable(name) => match self.variables.get(name.as_str()) {
                Some(v) => Ok(v),
                None => Err(EvalError::UndefinedVariable(name.clone())),
            },
            Expression::CurrencyAnnotation { value, .. } => self.evaluate(value),
            Expression::CurrencyConversion { source, target_currency } => {
                let amount = match self.evaluate(source) {
                    Ok(v) => v,
                    Err(e) => {
                        return Err(e);
                    },
                };
                let from = match self.extract_currency(source) {
                    Some(c) => c,
                    None => {
                        return Err(EvalError::MissingCurrencyAnnotation);
                    },
                };
                match self.converter.convert(amount, from.as_str(), target_currency.as_str()) {
                    Ok(v) => Ok(v),
                    Err(ConvertError::UnknownCurrency(c)) => Err(EvalError::UnknownCurrency(c)),
                    Err(ConvertError::OutOfRange) => Err(EvalError::OutOfRange),
                }
            },
            Expression::BinaryOp { op, left, right } => {
                let a = match self.evaluate(left) {
                    Ok(v) => v,
                    Err(e) => {
                        return Err(e);
                    },
                };
                let b = match self.evaluate(right) {
                    Ok(v) => v,
                    Err(e) => {
                        return Err(e);
                    },
                };
                apply_op(*op, a, b)
            },
            Expression::Assignment { var, expr: inner } => {
                let v = match self.evaluate(inner) {
                    Ok(v) => v,
                    Err(e) => {
                        return Err(e);
                    },
                };
                self.variables.insert(var.clone(), v);
                Ok(v)
            },
        }
    }

    /// Work one line: parse, evaluate, format. Returns nothing for blank
    /// input; otherwise exactly the display string that
    /// [`evaluate_line_spec`] gives, a result or an error line, leaving the
    /// environment as the spec says.
    pub fn evaluate_line(&mut self, line: &str) -> (r: Option<String>)
        requires
            old(self).wf(),
        ensures
            final(self).wf(),
            final(self).rates() == old(self).rates(),
            ({
                let (rs, env2) = evaluate_line_spec(line@, old(self).env(), old(self).rates());
                final(self).env() == env2 && match r {
                    Some(s) => rs == Some(s@),
                    None => rs is None,
                }
            }),
    {
        let trimmed = trim(line);
        if trimmed.unicode_len() == 0 {
            return None;
        }
        let parser = Parser::new();
        match parser.parse(line) {
            Err(pe) => Some(
                String::from_str("Parse error: ").concat(parse_error_message(&pe).as_str()),
            ),
            Ok(expr) => {
                let target: Option<String> = match &expr {
                    Expression::CurrencyConversion { target_currency, .. } => Some(
                        target_currency.clone(),
                    ),
                    _ => None,
                };
                match self.evaluate(&expr) {
                    Err(ee) => Some(
                        String::from_str("Error: ").concat(eval_error_message(&ee).as_str()),
                    ),
                    Ok(v) => match target {
                        Some(c) => Some(format_currency(v, c.as_str())),
                        None => Some(format_number(v)),
                    },
                }
            },
        }
    }
}

} // verus!

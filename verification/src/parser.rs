//! The recursive-descent parser.
//!
//! Grammar, lowest to highest precedence:
//!
//! ```text
//! line        := IDENT '=' line | expr
//! expr        := conversion
//! conversion  := additive ( 'to' CURRENCY )?
//! additive    := multiplicative ( ('+'|'-') multiplicative )*
//! multiplicative := primary ( ('*'|'/') primary )*
//! primary     := NUMBER CURRENCY? | IDENT | '(' expr ')'
//! ```
//!
//! The exec parser is proved to return exactly what the spec parser
//! ([`parse_line_spec`]) gives on the same characters. The spec parser walks
//! the token list with a cursor and a fuel bound on recursion depth; the exec
//! parser threads the same fuel, so the two agree step for step.

use vstd::prelude::*;
use vstd::string::*;
use crate::num::Num;
use crate::text::{
    is_ws, lower_seq, upper_seq, to_lower, to_upper, str_eq, trim, trim_spec, trim_start_spec,
    trim_end_spec, is_digit, is_digit_char,
};
use crate::literal::{parse_literal, parse_literal_str};
use crate::tokenizer::{tokenize, tokenize_spec};

verus! {

/// A binary arithmetic operator. `Power` and `Modulo` are representable but
/// no grammar rule produces them; they can only be built directly.
#[derive(Clone, Copy, Debug, PartialEq, Eq, Structural)]
pub enum Operator {
    Add,
    Subtract,
    Multiply,
    Divide,
    Power,
    Modulo,
}

/// An expression tree. Children are owned exclusively by their parent; the
/// parser only ever builds new nodes, and evaluation only reads them.
#[derive(Debug)]
pub enum Expression {
    Number(Num),
    Variable(String),
    BinaryOp { op: Operator, left: Box<Expression>, right: Box<Expression> },
    Assignment { var: String, expr: Box<Expression> },
    CurrencyAnnotation { value: Box<Expression>, currency: String },
    CurrencyConversion { source: Box<Expression>, target_currency: String },
}

/// The mathematical shape of an [`Expression`]: numbers as mantissas,
/// names as character sequences.
#[verifier::ext_equal]
pub enum ExprV {
    Number(int),
    Variable(Seq<char>),
    BinaryOp { op: Operator, left: Box<ExprV>, right: Box<ExprV> },
    Assignment { var: Seq<char>, expr: Box<ExprV> },
    CurrencyAnnotation { value: Box<ExprV>, currency: Seq<char> },
    CurrencyConversion { source: Box<ExprV>, target_currency: Seq<char> },
}

/// The view of an expression tree.
pub open spec fn expr_view(e: Expression) -> ExprV
    decreases e,
{
    match e {
        Expression::Number(n) => ExprV::Number(n@),
        Expression::Variable(s) => ExprV::Variable(s@),
        Expression::BinaryOp { op, left, right } => ExprV::BinaryOp {
            op,
            left: Box::new(expr_view(*left)),
            right: Box::new(expr_view(*right)),
        },
        Expression::Assignment { var, expr } => ExprV::Assignment {
            var: var@,
            expr: Box::new(expr_view(*expr)),
        },
        Expression::CurrencyAnnotation { value, currency } => ExprV::CurrencyAnnotation {
            value: Box::new(expr_view(*value)),
            currency: currency@,
        },
        Expression::CurrencyConversion { source, target_currency } => ExprV::CurrencyConversion {
            source: Box::new(expr_view(*source)),
            target_currency: target_currency@,
        },
    }
}

impl View for Expression {
    type V = ExprV;

    open spec fn view(&self) -> ExprV {
        expr_view(*self)
    }
}

/// Why a line failed to parse.
#[derive(Debug)]
pub enum ParseError {
    EmptyInput,
    UnmatchedParenthesis,
    MissingOperand,
    UnparseableToken(String),
    MissingCurrencyAfterConversionKeyword,
}

/// The spec-level shape of a [`ParseError`].
#[verifier::ext_equal]
pub enum ParseIssue {
    Empty,
    Unclosed,
    Missing,
    Bad(Seq<char>),
    NoCurrency,
}

impl View for ParseError {
    type V = ParseIssue;

    open spec fn view(&self) -> ParseIssue {
        match self {
            ParseError::EmptyInput => ParseIssue::Empty,
            ParseError::UnmatchedParenthesis => ParseIssue::Unclosed,
            ParseError::MissingOperand => ParseIssue::Missing,
            ParseError::UnparseableToken(t) => ParseIssue::Bad(t@),
            ParseError::MissingCurrencyAfterConversionKeyword => ParseIssue::NoCurrency,
        }
    }
}

/// A recognized currency token: one of the three codes, case-insensitively,
/// or one of their symbols.
pub open spec fn is_currency_spec(t: Seq<char>) -> bool {
    let u = upper_seq(t);
    u == "USD"@ || u == "EUR"@ || u == "INR"@ || u == "$"@ || u == "€"@ || u == "₹"@
}

/// Exec test for [`is_currency_spec`].
pub fn is_currency(token: &str) -> (r: bool)
    ensures
        r == is_currency_spec(token@),
{
    let u = to_upper(token);
    let us = u.as_str();
    str_eq(us, "USD") || str_eq(us, "EUR") || str_eq(us, "INR") || str_eq(us, "$") || str_eq(
        us,
        "€",
    ) || str_eq(us, "₹")
}

/// The canonical three-letter code of a currency token; an unrecognized
/// token is merely uppercased.
pub open spec fn normalize_currency_spec(t: Seq<char>) -> Seq<char> {
    let u = upper_seq(t);
    if u == "$"@ || u == "USD"@ {
        "USD"@
    } else if u == "€"@ || u == "EUR"@ {
        "EUR"@
    } else if u == "₹"@ || u == "INR"@ {
        "INR"@
    } else {
        u
    }
}

/// Exec version of [`normalize_currency_spec`].
pub fn normalize_currency(symbol: &str) -> (r: String)
    ensures
        r@ == normalize_currency_spec(symbol@),
{
    let u = to_upper(symbol);
    let us = u.as_str();
    if str_eq(us, "$") || str_eq(us, "USD") {
        String::from_str("USD")
    } else if str_eq(us, "€") || str_eq(us, "EUR") {
        String::from_str("EUR")
    } else if str_eq(us, "₹") || str_eq(us, "INR") {
        String::from_str("INR")
    } else {
        u
    }
}

/// A character an identifier may contain.
pub open spec fn is_word_char(c: char) -> bool {
    ('a' <= c && c <= 'z') || ('A' <= c && c <= 'Z') || is_digit(c) || c == '_'
}

/// Exec test for [`is_word_char`].
pub fn is_word_char_exec(c: char) -> (r: bool)
    ensures
        r == is_word_char(c),
{
    ('a' <= c && c <= 'z') || ('A' <= c && c <= 'Z') || is_digit_char(c) || c == '_'
}

/// A valid identifier: word characters not starting with a digit.
pub open spec fn is_ident(s: Seq<char>) -> bool {
    s.len() > 0 && !is_digit(s[0]) && forall|i: int| 0 <= i < s.len() ==> is_word_char(s[i])
}

/// Length of the leading run of word characters.
pub open spec fn word_len(t: Seq<char>) -> int
    decreases t.len(),
{
    if t.len() > 0 && is_word_char(t[0]) {
        1 + word_len(t.skip(1))
    } else {
        0
    }
}

/// Length of the leading run of whitespace.
pub open spec fn ws_len(t: Seq<char>) -> int
    decreases t.len(),
{
    if t.len() > 0 && is_ws(t[0]) {
        1 + ws_len(t.skip(1))
    } else {
        0
    }
}

/// Split a trimmed line at a top-leading `IDENT '='`: the identifier and the
/// text after the equals sign, or `None` when the line does not start so.
pub open spec fn assignment_split(t: Seq<char>) -> Option<(Seq<char>, Seq<char>)> {
    let k = word_len(t);
    let m = ws_len(t.skip(k));
    if k > 0 && !is_digit(t[0]) && k + m < t.len() && t[k + m] == '=' {
        Some((t.take(k), t.skip(k + m + 1)))
    } else {
        None
    }
}

/// Primary level: a parenthesized expression, a numeric literal with an
/// optional currency annotation, or a variable.
pub open spec fn parse_primary_spec(ts: Seq<Seq<char>>, i: int, fuel: nat) -> Result<
    (ExprV, int),
    ParseIssue,
>
    decreases fuel, 0int,
{
    if i >= ts.len() {
        Err(ParseIssue::Missing)
    } else if ts[i] == "("@ {
        if fuel == 0 {
            Err(ParseIssue::Missing)
        } else {
            match parse_conversion_spec(ts, i + 1, (fuel - 1) as nat) {
                Err(e) => Err(e),
                Ok((e, j)) => if j < ts.len() && ts[j] == ")"@ {
                    Ok((e, j + 1))
                } else {
                    Err(ParseIssue::Unclosed)
                },
            }
        }
    } else if parse_literal(ts[i]) is Some {
        let v = parse_literal(ts[i])->0;
        if i + 1 < ts.len() && is_currency_spec(ts[i + 1]) {
            Ok(
                (
                    ExprV::CurrencyAnnotation {
                        value: Box::new(ExprV::Number(v)),
                        currency: normalize_currency_spec(ts[i + 1]),
                    },
                    i + 2,
                ),
            )
        } else {
            Ok((ExprV::Number(v), i + 1))
        }
    } else if is_ident(ts[i]) {
        Ok((ExprV::Variable(ts[i]), i + 1))
    } else {
        Err(ParseIssue::Bad(ts[i]))
    }
}

/// Multiplicative level after its first operand: fold `*` and `/`
/// left-associatively.
pub open spec fn parse_mul_rest_spec(ts: Seq<Seq<char>>, left: ExprV, i: int, fuel: nat) -> Result<
    (ExprV, int),
    ParseIssue,
>
    decreases fuel, 1int,
{
    if i < ts.len() && (ts[i] == "*"@ || ts[i] == "/"@) {
        if fuel == 0 {
            Err(ParseIssue::Missing)
        } else {
            let op = if ts[i] == "*"@ {
                Operator::Multiply
            } else {
                Operator::Divide
            };
            match parse_primary_spec(ts, i + 1, fuel) {
                Err(e) => Err(e),
                Ok((right, j)) => parse_mul_rest_spec(
                    ts,
                    ExprV::BinaryOp { op, left: Box::new(left), right: Box::new(right) },
                    j,
                    (fuel - 1) as nat,
                ),
            }
        }
    } else {
        Ok((left, i))
    }
}

/// Multiplicative level: left-associative `*` and `/` over primaries.
pub open spec fn parse_mul_div_spec(ts: Seq<Seq<char>>, i: int, fuel: nat) -> Result<
    (ExprV, int),
    ParseIssue,
>
    decreases fuel, 2int,
{
    match parse_primary_spec(ts, i, fuel) {
        Err(e) => Err(e),
        Ok((left, j)) => parse_mul_rest_spec(ts, left, j, fuel),
    }
}

/// Additive level after its first operand: fold `+` and `-`
/// left-associatively.
pub open spec fn parse_add_rest_spec(ts: Seq<Seq<char>>, left: ExprV, i: int, fuel: nat) -> Result<
    (ExprV, int),
    ParseIssue,
>
    decreases fuel, 3int,
{
    if i < ts.len() && (ts[i] == "+"@ || ts[i] == "-"@) {
        if fuel == 0 {
            Err(ParseIssue::Missing)
        } else {
            let op = if ts[i] == "+"@ {
                Operator::Add
            } else {
                Operator::Subtract
            };
            match parse_mul_div_spec(ts, i + 1, fuel) {
                Err(e) => Err(e),
                Ok((right, j)) => parse_add_rest_spec(
                    ts,
                    ExprV::BinaryOp { op, left: Box::new(left), right: Box::new(right) },
                    j,
                    (fuel - 1) as nat,
                ),
            }
        }
    } else {
        Ok((left, i))
    }
}

/// Additive level: left-associative `+` and `-` over the multiplicative
/// level.
pub open spec fn parse_add_sub_spec(ts: Seq<Seq<char>>, i: int, fuel: nat) -> Result<
    (ExprV, int),
    ParseIssue,
>
    decreases fuel, 4int,
{
    match parse_mul_div_spec(ts, i, fuel) {
        Err(e) => Err(e),
        Ok((left, j)) => parse_add_rest_spec(ts, left, j, fuel),
    }
}

/// Conversion level, the lowest precedence: an additive expression,
/// optionally wrapped whole by `to CURRENCY`.
pub open spec fn parse_conversion_spec(ts: Seq<Seq<char>>, i: int, fuel: nat) -> Result<
    (ExprV, int),
    ParseIssue,
>
    decreases fuel, 5int,
{
    match parse_add_sub_spec(ts, i, fuel) {
        Err(e) => Err(e),
        Ok((left, j)) => if j < ts.len() && lower_seq(ts[j]) == "to"@ {
            if j + 1 >= ts.len() {
                Err(ParseIssue::NoCurrency)
            } else {
                Ok(
                    (
                        ExprV::CurrencyConversion {
                            source: Box::new(left),
                            target_currency: normalize_currency_spec(ts[j + 1]),
                        },
                        j + 2,
                    ),
                )
            }
        } else {
            Ok((left, j))
        },
    }
}

/// Fuel that the parser starts from: one unit per token. Fuel is consumed
/// only on an opening parenthesis or an operator, each of which also
/// consumes tokens, so this never runs out before the tokens do;
/// [`lemma_parse_fuel_ample`] proves that any larger bound parses the same.
pub open spec fn start_fuel(ts: Seq<Seq<char>>) -> nat {
    ts.len()
}

/// On success the primary level consumes at least one token and stays
/// within the list.
proof fn lemma_primary_bounds(ts: Seq<Seq<char>>, i: int, fuel: nat)
    requires
        0 <= i <= ts.len(),
    ensures
        parse_primary_spec(ts, i, fuel) matches Ok((e, j)) ==> i < j <= ts.len(),
    decreases fuel, 0int,
{
    if i < ts.len() && ts[i] == "("@ && fuel > 0 {
        lemma_conversion_bounds(ts, i + 1, (fuel - 1) as nat);
    }
}

/// On success the multiplicative tail never moves the cursor back and stays
/// within the list.
proof fn lemma_mul_rest_bounds(ts: Seq<Seq<char>>, left: ExprV, i: int, fuel: nat)
    requires
        0 <= i <= ts.len(),
    ensures
        parse_mul_rest_spec(ts, left, i, fuel) matches Ok((e, j)) ==> i <= j <= ts.len(),
    decreases fuel, 1int,
{
    if i < ts.len() && (ts[i] == "*"@ || ts[i] == "/"@) && fuel > 0 {
        lemma_primary_bounds(ts, i + 1, fuel);
        let op = if ts[i] == "*"@ {
            Operator::Multiply
        } else {
            Operator::Divide
        };
        match parse_primary_spec(ts, i + 1, fuel) {
            Err(_) => {},
            Ok((right, j)) => {
                lemma_mul_rest_bounds(
                    ts,
                    ExprV::BinaryOp { op, left: Box::new(left), right: Box::new(right) },
                    j,
                    (fuel - 1) as nat,
                );
            },
        }
    }
}

/// On success the multiplicative level consumes at least one token and
/// stays within the list.
proof fn lemma_mul_div_bounds(ts: Seq<Seq<char>>, i: int, fuel: nat)
    requires
        0 <= i <= ts.len(),
    ensures
        parse_mul_div_spec(ts, i, fuel) matches Ok((e, j)) ==> i < j <= ts.len(),
    decreases fuel, 2int,
{
    lemma_primary_bounds(ts, i, fuel);
    match parse_primary_spec(ts, i, fuel) {
        Err(_) => {},
        Ok((left, j)) => {
            lemma_mul_rest_bounds(ts, left, j, fuel);
        },
    }
}

/// On success the additive tail never moves the cursor back and stays
/// within the list.
proof fn lemma_add_rest_bounds(ts: Seq<Seq<char>>, left: ExprV, i: int, fuel: nat)
    requires
        0 <= i <= ts.len(),
    ensures
        parse_add_rest_spec(ts, left, i, fuel) matches Ok((e, j)) ==> i <= j <= ts.len(),
    decreases fuel, 3int,
{
    if i < ts.len() && (ts[i] == "+"@ || ts[i] == "-"@) && fuel > 0 {
        lemma_mul_div_bounds(ts, i + 1, fuel);
        let op = if ts[i] == "+"@ {
            Operator::Add
        } else {
            Operator::Subtract
        };
        match parse_mul_div_spec(ts, i + 1, fuel) {
            Err(_) => {},
            Ok((right, j)) => {
                lemma_add_rest_bounds(
                    ts,
                    ExprV::BinaryOp { op, left: Box::new(left), right: Box::new(right) },
                    j,
                    (fuel - 1) as nat,
                );
            },
        }
    }
}

/// On success the additive level consumes at least one token and stays
/// within the list.
proof fn lemma_add_sub_bounds(ts: Seq<Seq<char>>, i: int, fuel: nat)
    requires
        0 <= i <= ts.len(),
    ensures
        parse_add_sub_spec(ts, i, fuel) matches Ok((e, j)) ==> i < j <= ts.len(),
    decreases fuel, 4int,
{
    lemma_mul_div_bounds(ts, i, fuel);
    match parse_mul_div_spec(ts, i, fuel) {
        Err(_) => {},
        Ok((left, j)) => {
            lemma_add_rest_bounds(ts, left, j, fuel);
        },
    }
}

/// On success the conversion level consumes at least one token and stays
/// within the list.
proof fn lemma_conversion_bounds(ts: Seq<Seq<char>>, i: int, fuel: nat)
    requires
        0 <= i <= ts.len(),
    ensures
        parse_conversion_spec(ts, i, fuel) matches Ok((e, j)) ==> i < j <= ts.len(),
    decreases fuel, 5int,
{
    lemma_add_sub_bounds(ts, i, fuel);
}

/// One more unit of fuel changes nothing once there is a unit per
/// remaining token: primary level.
proof fn lemma_primary_fuel(ts: Seq<Seq<char>>, i: int, fuel: nat)
    requires
        0 <= i <= ts.len(),
        ts.len() - i <= fuel,
    ensures
        parse_primary_spec(ts, i, fuel) == parse_primary_spec(ts, i, (fuel + 1) as nat),
    decreases fuel, 0int,
{
    if i < ts.len() && ts[i] == "("@ {
        lemma_conversion_fuel(ts, i + 1, (fuel - 1) as nat);
    }
}

/// One more unit of fuel changes nothing once there is a unit per
/// remaining token: multiplicative tail.
proof fn lemma_mul_rest_fuel(ts: Seq<Seq<char>>, left: ExprV, i: int, fuel: nat)
    requires
        0 <= i <= ts.len(),
        ts.len() - i <= fuel,
    ensures
        parse_mul_rest_spec(ts, left, i, fuel) == parse_mul_rest_spec(
            ts,
            left,
            i,
            (fuel + 1) as nat,
        ),
    decreases fuel, 1int,
{
    if i < ts.len() && (ts[i] == "*"@ || ts[i] == "/"@) {
        lemma_primary_fuel(ts, i + 1, fuel);
        lemma_primary_bounds(ts, i + 1, fuel);
        let op = if ts[i] == "*"@ {
            Operator::Multiply
        } else {
            Operator::Divide
        };
        match parse_primary_spec(ts, i + 1, fuel) {
            Err(_) => {},
            Ok((right, j)) => {
                lemma_mul_rest_fuel(
                    ts,
                    ExprV::BinaryOp { op, left: Box::new(left), right: Box::new(right) },
                    j,
                    (fuel - 1) as nat,
                );
            },
        }
    }
}

/// One more unit of fuel changes nothing once there is a unit per
/// remaining token: multiplicative level.
proof fn lemma_mul_div_fuel(ts: Seq<Seq<char>>, i: int, fuel: nat)
    requires
        0 <= i <= ts.len(),
        ts.len() - i <= fuel,
    ensures
        parse_mul_div_spec(ts, i, fuel) == parse_mul_div_spec(ts, i, (fuel + 1) as nat),
    decreases fuel, 2int,
{
    lemma_primary_fuel(ts, i, fuel);
    lemma_primary_bounds(ts, i, fuel);
    match parse_primary_spec(ts, i, fuel) {
        Err(_) => {},
        Ok((left, j)) => {
            lemma_mul_rest_fuel(ts, left, j, fuel);
        },
    }
}

/// One more unit of fuel changes nothing once there is a unit per
/// remaining token: additive tail.
proof fn lemma_add_rest_fuel(ts: Seq<Seq<char>>, left: ExprV, i: int, fuel: nat)
    requires
        0 <= i <= ts.len(),
        ts.len() - i <= fuel,
    ensures
        parse_add_rest_spec(ts, left, i, fuel) == parse_add_rest_spec(
            ts,
            left,
            i,
            (fuel + 1) as nat,
        ),
    decreases fuel, 3int,
{
    if i < ts.len() && (ts[i] == "+"@ || ts[i] == "-"@) {
        lemma_mul_div_fuel(ts, i + 1, fuel);
        lemma_mul_div_bounds(ts, i + 1, fuel);
        let op = if ts[i] == "+"@ {
            Operator::Add
        } else {
            Operator::Subtract
        };
        match parse_mul_div_spec(ts, i + 1, fuel) {
            Err(_) => {},
            Ok((right, j)) => {
                lemma_add_rest_fuel(
                    ts,
                    ExprV::BinaryOp { op, left: Box::new(left), right: Box::new(right) },
                    j,
                    (fuel - 1) as nat,
                );
            },
        }
    }
}

/// One more unit of fuel changes nothing once there is a unit per
/// remaining token: additive level.
proof fn lemma_add_sub_fuel(ts: Seq<Seq<char>>, i: int, fuel: nat)
    requires
        0 <= i <= ts.len(),
        ts.len() - i <= fuel,
    ensures
        parse_add_sub_spec(ts, i, fuel) == parse_add_sub_spec(ts, i, (fuel + 1) as nat),
    decreases fuel, 4int,
{
    lemma_mul_div_fuel(ts, i, fuel);
    lemma_mul_div_bounds(ts, i, fuel);
    match parse_mul_div_spec(ts, i, fuel) {
        Err(_) => {},
        Ok((left, j)) => {
            lemma_add_rest_fuel(ts, left, j, fuel);
        },
    }
}

/// One more unit of fuel changes nothing once there is a unit per
/// remaining token: conversion level.
proof fn lemma_conversion_fuel(ts: Seq<Seq<char>>, i: int, fuel: nat)
    requires
        0 <= i <= ts.len(),
        ts.len() - i <= fuel,
    ensures
        parse_conversion_spec(ts, i, fuel) == parse_conversion_spec(ts, i, (fuel + 1) as nat),
    decreases fuel, 5int,
{
    lemma_add_sub_fuel(ts, i, fuel);
}

/// The fuel bound is immaterial: any fuel of at least one unit per token
/// parses a token list exactly as the starting fuel does, so the parser's
/// result depends on the tokens alone.
pub proof fn lemma_parse_fuel_ample(ts: Seq<Seq<char>>, fuel: nat)
    requires
        fuel >= ts.len(),
    ensures
        parse_conversion_spec(ts, 0, fuel) == parse_conversion_spec(ts, 0, start_fuel(ts)),
    decreases fuel,
{
    if fuel > ts.len() {
        lemma_parse_fuel_ample(ts, (fuel - 1) as nat);
        lemma_conversion_fuel(ts, 0, (fuel - 1) as nat);
    }
}

/// What a token list parses to: the conversion level from the first token;
/// tokens after the parsed expression are ignored.
pub open spec fn parse_tokens_spec(ts: Seq<Seq<char>>) -> Result<ExprV, ParseIssue> {
    if ts.len() == 0 {
        Err(ParseIssue::Empty)
    } else {
        match parse_conversion_spec(ts, 0, start_fuel(ts)) {
            Err(e) => Err(e),
            Ok((e, j)) => Ok(e),
        }
    }
}

/// What a line parses to: empty after trimming is rejected; a line starting
/// `IDENT =` becomes an assignment of what the rest parses to; any other
/// line is tokenized and parsed as an expression.
pub open spec fn parse_line_spec(s: Seq<char>) -> Result<ExprV, ParseIssue>
    decreases s.len()
    via parse_line_spec_decreases
{
    let t = trim_spec(s);
    if t.len() == 0 {
        Err(ParseIssue::Empty)
    } else {
        match assignment_split(t) {
            Some((name, rest)) => match parse_line_spec(rest) {
                Ok(e) => Ok(ExprV::Assignment { var: name, expr: Box::new(e) }),
                Err(x) => Err(x),
            },
            None => parse_tokens_spec(tokenize_spec(t)),
        }
    }
}

/// Trimming never lengthens a string.
pub proof fn lemma_trim_start_le(s: Seq<char>)
    ensures
        trim_start_spec(s).len() <= s.len(),
    decreases s.len(),
{
    if s.len() > 0 && is_ws(s[0]) {
        lemma_trim_start_le(s.skip(1));
    }
}

/// Trimming never lengthens a string.
pub proof fn lemma_trim_end_le(s: Seq<char>)
    ensures
        trim_end_spec(s).len() <= s.len(),
    decreases s.len(),
{
    if s.len() > 0 && is_ws(s[s.len() - 1]) {
        lemma_trim_end_le(s.drop_last());
    }
}

/// Trimming never lengthens a string.
pub proof fn lemma_trim_le(s: Seq<char>)
    ensures
        trim_spec(s).len() <= s.len(),
{
    lemma_trim_start_le(s);
    lemma_trim_end_le(trim_start_spec(s));
}

/// The leading word run is never negative and never longer than the string.
proof fn lemma_word_len_bounds(t: Seq<char>)
    ensures
        0 <= word_len(t) <= t.len(),
    decreases t.len(),
{
    if t.len() > 0 && is_word_char(t[0]) {
        lemma_word_len_bounds(t.skip(1));
    }
}

/// The leading whitespace run is never negative and never longer than the
/// string.
proof fn lemma_ws_len_bounds(t: Seq<char>)
    ensures
        0 <= ws_len(t) <= t.len(),
    decreases t.len(),
{
    if t.len() > 0 && is_ws(t[0]) {
        lemma_ws_len_bounds(t.skip(1));
    }
}

#[via_fn]
proof fn parse_line_spec_decreases(s: Seq<char>) {
    let t = trim_spec(s);
    lemma_trim_le(s);
    if t.len() > 0 {
        match assignment_split(t) {
            Some((name, rest)) => {
                lemma_word_len_bounds(t);
                lemma_ws_len_bounds(t.skip(word_len(t)));
            },
            None => {},
        }
    }
}

/// The parser itself. It carries no state; each call to [`Parser::parse`]
/// works a line from scratch.
pub struct Parser {}

impl Parser {
    /// A new parser.
    pub fn new() -> (r: Parser) {
        Parser {}
    }

    /// Parse one line. The result is exactly what [`parse_line_spec`] gives
    /// on the line's characters.
    pub fn parse(&self, input: &str) -> (r: Result<Expression, ParseError>)
        ensures
            match r {
                Ok(e) => parse_line_spec(input@) == Ok::<ExprV, ParseIssue>(e@),
                Err(pe) => parse_line_spec(input@) == Err::<ExprV, ParseIssue>(pe@),
            },
        decreases input@.len(),
    {
        let trimmed = trim(input);
        let n = trimmed.unicode_len();
        if n == 0 {
            return Err(ParseError::EmptyInput);
        }
        proof {
            lemma_trim_le(input@);
        }
        // leading identifier run
        let mut k: usize = 0;
        proof {
            assert(trimmed@.skip(0) =~= trimmed@);
        }
        while k < n && is_word_char_exec(trimmed.get_char(k))
            invariant
                n == trimmed@.len(),
                k <= n,
                word_len(trimmed@) == k as int + word_len(trimmed@.skip(k as int)),
                forall|j: int| 0 <= j < k ==> is_word_char(trimmed@[j]),
            decreases n - k,
        {
            proof {
                assert(trimmed@.skip(k as int).skip(1) =~= trimmed@.skip(k + 1));
            }
            k += 1;
        }
        proof {
            assert(word_len(trimmed@.skip(k as int)) == 0);
            assert(word_len(trimmed@) == k as int);
        }
        // whitespace between the identifier and a possible equals sign
        let mut m: usize = 0;
        proof {
            assert(trimmed@.skip(k as int).skip(0) =~= trimmed@.skip(k as int));
        }
        while k + m < n && crate::text::is_ws_char(trimmed.get_char(k + m))
            invariant
                n == trimmed@.len(),
                k <= n,
                k + m <= n,
                ws_len(trimmed@.skip(k as int)) == m as int + ws_len(
                    trimmed@.skip(k as int).skip(m as int),
                ),
            decreases n - k - m,
        {
            proof {
                assert(trimmed@.skip(k as int).skip(m as int)[0] == trimmed@[k + m]);
                assert(trimmed@.skip(k as int).skip(m as int).skip(1) =~= trimmed@.skip(
                    k as int,
                ).skip(m as int + 1));
            }
            m += 1;
        }
        proof {
            assert(trimmed@.skip(k as int).skip(m as int).len() > 0 ==> trimmed@.skip(
                k as int,
            ).skip(m as int)[0] == trimmed@[k + m as int]);
            assert(ws_len(trimmed@.skip(k as int).skip(m as int)) == 0);
            assert(ws_len(trimmed@.skip(k as int)) == m as int);
        }
        let is_assign: bool = k > 0 && !is_digit_char(trimmed.get_char(0)) && k + m < n
            && trimmed.get_char(k + m) == '=';
        if is_assign {
            let name = String::from_str(trimmed.substring_char(0, k));
            let rest = trimmed.substring_char(k + m + 1, n);
            proof {
                assert(rest@ =~= trimmed@.skip(k as int + m as int + 1));
                assert(assignment_split(trimmed@) == Some(
                    (trimmed@.take(k as int), trimmed@.skip(k as int + m as int + 1)),
                ));
            }
            match self.parse(rest) {
                Ok(e) => {
                    return Ok(Expression::Assignment { var: name, expr: Box::new(e) });
                },
                Err(pe) => {
                    return Err(pe);
                },
            }
        }
        proof {
            assert(assignment_split(trimmed@) is None);
        }
        let tokens = tokenize(trimmed);
        if tokens.len() == 0 {
            return Err(ParseError::EmptyInput);
        }
        match parse_conversion(&tokens, 0, tokens.len()) {
            Ok((e, _j)) => Ok(e),
            Err(pe) => Err(pe),
        }
    }
}

/// Exec primary level; returns what [`parse_primary_spec`] gives.
fn parse_primary(tokens: &Vec<String>, i: usize, fuel: usize) -> (r: Result<
    (Expression, usize),
    ParseError,
>)
    requires
        i <= tokens.deep_view().len(),
    ensures
        match r {
            Ok((e, j)) => parse_primary_spec(tokens.deep_view(), i as int, fuel as nat) == Ok::<
                (ExprV, int),
                ParseIssue,
            >((e@, j as int)) && i < j <= tokens.deep_view().len(),
            Err(pe) => parse_primary_spec(tokens.deep_view(), i as int, fuel as nat) == Err::<
                (ExprV, int),
                ParseIssue,
            >(pe@),
        },
    decreases fuel, 0int,
{
    let ghost ts = tokens.deep_view();
    if i >= tokens.len() {
        return Err(ParseError::MissingOperand);
    }
    proof {
        assert(ts[i as int] == tokens@[i as int]@);
    }
    let tok = tokens[i].as_str();
    if str_eq(tok, "(") {
        if fuel == 0 {
            return Err(ParseError::MissingOperand);
        }
        match parse_conversion(tokens, i + 1, fuel - 1) {
            Err(e) => Err(e),
            Ok((e, j)) => {
                if j < tokens.len() {
                    proof {
                        assert(ts[j as int] == tokens@[j as int]@);
                    }
                    if str_eq(tokens[j].as_str(), ")") {
                        return Ok((e, j + 1));
                    }
                }
                Err(ParseError::UnmatchedParenthesis)
            },
        }
    } else if let Some(v) = parse_literal_str(tok) {
        if i + 1 < tokens.len() {
            proof {
                assert(ts[i + 1] == tokens@[i + 1]@);
            }
            if is_currency(tokens[i + 1].as_str()) {
                let currency = normalize_currency(tokens[i + 1].as_str());
                proof {
                    assert(expr_view(Expression::Number(v)) == ExprV::Number(v@));
                }
                return Ok(
                    (
                        Expression::CurrencyAnnotation {
                            value: Box::new(Expression::Number(v)),
                            currency,
                        },
                        i + 2,
                    ),
                );
            }
        }
        Ok((Expression::Number(v), i + 1))
    } else {
        // an identifier: word characters not led by a digit
        let nlen = tok.unicode_len();
        let mut ok: bool = nlen > 0 && !is_digit_char(tok.get_char(0));
        let mut p: usize = 0;
        while ok && p < nlen
            invariant
                nlen == tok@.len(),
                p <= nlen,
                ok ==> nlen > 0 && !is_digit(tok@[0]) && forall|q: int|
                    0 <= q < p ==> is_word_char(tok@[q]),
                !ok ==> !is_ident(tok@),
            decreases nlen - p,
        {
            if !is_word_char_exec(tok.get_char(p)) {
                ok = false;
            }
            p += 1;
        }
        if ok {
            let name = String::from_str(tok);
            Ok((Expression::Variable(name), i + 1))
        } else {
            proof {
                assert(!is_ident(ts[i as int]));
            }
            let t = String::from_str(tok);
            Err(ParseError::UnparseableToken(t))
        }
    }
}

/// Exec multiplicative tail; returns what [`parse_mul_rest_spec`] gives.
fn parse_mul_rest(tokens: &Vec<String>, left: Expression, i: usize, fuel: usize) -> (r: Result<
    (Expression, usize),
    ParseError,
>)
    requires
        i <= tokens.deep_view().len(),
    ensures
        match r {
            Ok((e, j)) => parse_mul_rest_spec(tokens.deep_view(), left@, i as int, fuel as nat)
                == Ok::<(ExprV, int), ParseIssue>((e@, j as int)) && i <= j
                <= tokens.deep_view().len(),
            Err(pe) => parse_mul_rest_spec(tokens.deep_view(), left@, i as int, fuel as nat)
                == Err::<(ExprV, int), ParseIssue>(pe@),
        },
    decreases fuel, 1int,
{
    let ghost ts = tokens.deep_view();
    if i < tokens.len() {
        proof {
            assert(ts[i as int] == tokens@[i as int]@);
        }
        let is_mul = str_eq(tokens[i].as_str(), "*");
        let is_div = str_eq(tokens[i].as_str(), "/");
        if is_mul || is_div {
            if fuel == 0 {
                return Err(ParseError::MissingOperand);
            }
            let op = if is_mul {
                Operator::Multiply
            } else {
                Operator::Divide
            };
            match parse_primary(tokens, i + 1, fuel) {
                Err(e) => {
                    return Err(e);
                },
                Ok((right, j)) => {
                    let node = Expression::BinaryOp {
                        op,
                        left: Box::new(left),
                        right: Box::new(right),
                    };
                    return parse_mul_rest(tokens, node, j, fuel - 1);
                },
            }
        }
    }
    Ok((left, i))
}

/// Exec multiplicative level; returns what [`parse_mul_div_spec`] gives.
fn parse_mul_div(tokens: &Vec<String>, i: usize, fuel: usize) -> (r: Result<
    (Expression, usize),
    ParseError,
>)
    requires
        i <= tokens.deep_view().len(),
    ensures
        match r {
            Ok((e, j)) => parse_mul_div_spec(tokens.deep_view(), i as int, fuel as nat) == Ok::<
                (ExprV, int),
                ParseIssue,
            >((e@, j as int)) && i <= j <= tokens.deep_view().len(),
            Err(pe) => parse_mul_div_spec(tokens.deep_view(), i as int, fuel as nat) == Err::<
                (ExprV, int),
                ParseIssue,
            >(pe@),
        },
    decreases fuel, 2int,
{
    match parse_primary(tokens, i, fuel) {
        Err(e) => Err(e),
        Ok((left, j)) => parse_mul_rest(tokens, left, j, fuel),
    }
}

/// Exec additive tail; returns what [`parse_add_rest_spec`] gives.
fn parse_add_rest(tokens: &Vec<String>, left: Expression, i: usize, fuel: usize) -> (r: Result<
    (Expression, usize),
    ParseError,
>)
    requires
        i <= tokens.deep_view().len(),
    ensures
        match r {
            Ok((e, j)) => parse_add_rest_spec(tokens.deep_view(), left@, i as int, fuel as nat)
                == Ok::<(ExprV, int), ParseIssue>((e@, j as int)) && i <= j
                <= tokens.deep_view().len(),
            Err(pe) => parse_add_rest_spec(tokens.deep_view(), left@, i as int, fuel as nat)
                == Err::<(ExprV, int), ParseIssue>(pe@),
        },
    decreases fuel, 3int,
{
    let ghost ts = tokens.deep_view();
    if i < tokens.len() {
        proof {
            assert(ts[i as int] == tokens@[i as int]@);
        }
        let is_add = str_eq(tokens[i].as_str(), "+");
        let is_sub = str_eq(tokens[i].as_str(), "-");
        if is_add || is_sub {
            if fuel == 0 {
                return Err(ParseError::MissingOperand);
            }
            let op = if is_add {
                Operator::Add
            } else {
                Operator::Subtract
            };
            match parse_mul_div(tokens, i + 1, fuel) {
                Err(e) => {
                    return Err(e);
                },
                Ok((right, j)) => {
                    let node = Expression::BinaryOp {
                        op,
                        left: Box::new(left),
                        right: Box::new(right),
                    };
                    return parse_add_rest(tokens, node, j, fuel - 1);
                },
            }
        }
    }
    Ok((left, i))
}

/// Exec additive level; returns what [`parse_add_sub_spec`] gives.
fn parse_add_subtract(tokens: &Vec<String>, i: usize, fuel: usize) -> (r: Result<
    (Expression, usize),
    ParseError,
>)
    requires
        i <= tokens.deep_view().len(),
    ensures
        match r {
            Ok((e, j)) => parse_add_sub_spec(tokens.deep_view(), i as int, fuel as nat) == Ok::<
                (ExprV, int),
                ParseIssue,
            >((e@, j as int)) && i <= j <= tokens.deep_view().len(),
            Err(pe) => parse_add_sub_spec(tokens.deep_view(), i as int, fuel as nat) == Err::<
                (ExprV, int),
                ParseIssue,
            >(pe@),
        },
    decreases fuel, 4int,
{
    match parse_mul_div(tokens, i, fuel) {
        Err(e) => Err(e),
        Ok((left, j)) => parse_add_rest(tokens, left, j, fuel),
    }
}

/// Exec conversion level; returns what [`parse_conversion_spec`] gives.
fn parse_conversion(tokens: &Vec<String>, i: usize, fuel: usize) -> (r: Result<
    (Expression, usize),
    ParseError,
>)
    requires
        i <= tokens.deep_view().len(),
    ensures
        match r {
            Ok((e, j)) => parse_conversion_spec(tokens.deep_view(), i as int, fuel as nat) == Ok::<
                (ExprV, int),
                ParseIssue,
            >((e@, j as int)) && i <= j <= tokens.deep_view().len(),
            Err(pe) => parse_conversion_spec(tokens.deep_view(), i as int, fuel as nat) == Err::<
                (ExprV, int),
                ParseIssue,
            >(pe@),
        },
    decreases fuel, 5int,
{
    let ghost ts = tokens.deep_view();
    match parse_add_subtract(tokens, i, fuel) {
        Err(e) => Err(e),
        Ok((left, j)) => {
            if j < tokens.len() {
                proof {
                    assert(ts[j as int] == tokens@[j as int]@);
                }
                let lowered = to_lower(tokens[j].as_str());
                if str_eq(lowered.as_str(), "to") {
                    if j + 1 >= tokens.len() {
                        return Err(ParseError::MissingCurrencyAfterConversionKeyword);
                    }
                    proof {
                        assert(ts[j + 1] == tokens@[j + 1]@);
                    }
                    let target_currency = normalize_currency(tokens[j + 1].as_str());
                    return Ok(
                        (
                            Expression::CurrencyConversion {
                                source: Box::new(left),
                                target_currency,
                            },
                            j + 2,
                        ),
                    );
                }
            }
            Ok((left, j))
        },
    }
}

} // verus!

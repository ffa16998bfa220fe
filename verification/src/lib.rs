//! A natural-language arithmetic calculator core: a tokenizer that folds
//! magnitude words (thousand, lakh, million, crore, billion) into numeric
//! literals, a recursive-descent parser with fixed operator precedence, an
//! evaluator over a mutable variable environment with currency conversion,
//! and a formatter with locale-aware digit grouping and order-of-magnitude
//! estimates.

pub mod calc;
pub mod currency;
pub mod format;
pub mod literal;
pub mod num;
pub mod parser;
pub mod table;
pub mod text;
pub mod tokenizer;

pub use calc::Calculator;
pub use currency::CurrencyConverter;
pub use num::Num;
pub use parser::{Expression, Operator, Parser};

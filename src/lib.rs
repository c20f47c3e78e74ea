//! Evaluation of arithmetic expressions written in Reverse Polish Notation.
//!
//! An expression is a whitespace-separated sequence of tokens. Each token is
//! either one of the operators `+`, `-`, `*`, `/` or a 64-bit signed integer
//! literal. Tokens are processed left to right on a stack; the expression is
//! well formed when exactly one value is left at the end.
//!
//! Values are 64-bit signed integers and division rounds toward zero. An
//! operation without a 64-bit result (overflow, or division by zero) does not
//! trap: it stops the evaluation with `CalcError::EvaluationError`.
pub mod calculator;
pub mod error;
pub mod expr;
pub mod laws;
pub mod lexer;

pub use calculator::{Calculator, Operator};
pub use error::CalcError;

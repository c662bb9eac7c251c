//! A small front end for arithmetic expressions: a scanner that turns text into tokens
//! and a recursive-descent parser that turns tokens into a syntax tree, both verified.
//!
//! Expressions are decimal numbers joined by `+`, `-`, `*` and `/`. The two
//! multiplicative operators bind tighter than the two additive ones, and operators of
//! one tier group to the left. There are no parentheses, no signs and no fractions.
//!
//! Every failure is a value of [`error::Error`]; nothing in this library panics.

pub mod chars;
pub mod error;
pub mod expr;
pub mod expr_laws;
pub mod parser;
pub mod parser_laws;
pub mod scanner_laws;
pub mod spacing_laws;
pub mod token;
pub mod tokenizer;

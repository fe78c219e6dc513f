//! A recursive-descent parser for a small S-expression language.
//!
//! A [`Parser`] reads [`Token`]s (numbers, identifiers and parentheses) from
//! any iterator and builds [`Expression`] trees, one per call. What each call
//! returns and how far it moves on is stated over the grammar in [`grammar`],
//! a mathematical model of the language on sequences of tokens; [`laws`]
//! proves what holds of that model for every input.

pub mod error;
pub mod expression;
pub mod grammar;
pub mod laws;
pub mod parser;
pub mod token;

pub use error::SyntaxError;
pub use expression::Expression;
pub use parser::Parser;
pub use token::Token;

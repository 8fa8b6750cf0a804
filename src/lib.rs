//! Exact decimal expression evaluation: a tokenizer that turns calculator
//! input into tokens and a two-stack evaluator that reduces them to a value.

pub mod decimal;
pub mod token;
pub mod arith;
pub mod evaluator;
pub mod tokenizer;
pub mod laws;
pub mod button_grid;

pub use decimal::Dec;
pub use evaluator::evaluate;
pub use token::{CalcError, ErrorKind, Token};
pub use tokenizer::tokenize;

//! Arithmetic expressions: from text to tokens, from tokens to a syntax tree,
//! and from the tree to a value in a number domain chosen by the caller.

pub mod error;
pub mod evaluator;
pub mod grammar;
pub mod lexer;
pub mod parser;
pub mod token;
pub mod tree;

//! Front end of a small expression language: a tokenizer over characters and
//! a recursive-descent parser that builds statements and expressions.
//!
//! Every function states what it computes over plain mathematical models
//! (sequences of characters, token streams, syntax trees), and the
//! implementations are proved against those statements.

pub mod chars;
pub mod error;
pub mod token;
pub mod ast;
pub mod number;
pub mod scan;
pub mod lexer;
pub mod grammar;
pub mod parser;
pub mod laws;
pub mod derivation;
pub mod completeness;

//! Parsing and evaluation core of a small expression language: a tokenizer, a backtracking
//! precedence-climbing parser producing a span-annotated syntax tree, a structured error model,
//! and the dispatch rules of unary operators over the runtime value algebra.
pub mod error;
pub mod token;
pub mod parser;
pub mod ast;
pub mod grammar;
pub mod unary_eval;
pub mod laws;
pub mod measurement;

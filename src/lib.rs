//! Front end of an interpreter for a small C-like language: a lexer that turns
//! source text into tokens and a Pratt parser that turns tokens into a syntax tree.

pub mod ast;
pub mod lexer;
pub mod parser;
pub mod token;

//! Front end of a small experimental language: a tokenizer turning source
//! text into a stream of positioned tokens, and a combinator-based
//! recursive-descent parsing engine with backtracking that turns that
//! stream into an abstract syntax tree.

pub mod ast;
pub mod combinators;
pub mod laws;
pub mod lexer;
pub mod scanner;
pub mod tokens;

//! A tiny functional language: a lexer, a parser that reads calls by the arity of their callee,
//! and an evaluator with closures, lists and effects ordered by universe tokens.

pub mod ast;
pub mod error;
pub mod eval;
pub mod laws;
pub mod lex;
pub mod parse;
pub mod source;
pub mod text;
pub mod value;

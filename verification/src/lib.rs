//! Front end of a compiler for a small imperative language: a lexer that turns
//! source text into located tokens, and a grammar engine that turns source text
//! into a tree of declarations or a chain of diagnostics.
pub mod text;
pub mod lexer;
pub mod parser;

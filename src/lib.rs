//! Lexical scanner, expression parser and tree printer for a small
//! expression-oriented language.
pub mod expr;
pub mod lexical;
pub mod parser;
pub mod scanner;
pub mod token;

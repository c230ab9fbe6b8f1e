//! The front end of a small experimental language: a pull-based tokenizer
//! and a recursive-descent parser with one token of lookahead.
pub mod chars;
pub mod lexer;
pub mod lexical;
pub mod parser;
pub mod grammar;

//! The front end of a compiler for a small C-like language: source positions,
//! a lexer, a token cursor and a framework of composable parsers.

pub mod err;
pub mod node;
pub mod seq;
pub mod span;
mod text;
pub mod token;

pub use token::lex;

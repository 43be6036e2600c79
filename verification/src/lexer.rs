//! Lexical analysis: the token model and the scanner that produces it.

pub mod scanner;
pub mod token;

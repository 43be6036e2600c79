//! Syntax analysis: the grammar, the parser that follows it, and the static
//! scope resolver.

pub mod error;
pub mod grammar;
pub mod laws;
pub mod parser;
pub mod progress;
pub mod resolution;
pub mod resolver;
pub mod shape;

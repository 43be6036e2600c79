//! The syntax tree: expressions, statements, and their printed form.

pub mod expr;
pub mod printer;
pub mod statement;

//! A tree-walking interpreter for a small dynamically typed scripting
//! language: lexer, recursive-descent parser, static scope resolver and
//! evaluator.
//!
//! Source text goes through four stages. [`scan`] turns it into tokens.
//! [`Parser`] turns tokens into statements and recovers from syntax errors.
//! [`Resolver`] computes, for every variable reference, how many scopes lie
//! between it and its declaration. [`Interpreter`] evaluates the program.

pub mod ast;
pub mod lexer;
pub mod parser;
pub mod runtime;
pub mod text;

pub use ast::expr::{Depth, Expr, ExprNode};
pub use ast::printer::AstPrinter;
pub use ast::statement::Statement;
pub use lexer::scanner::{scan, LexError, Scanner, TokenArray};
pub use lexer::token::{Keyword, Literal, Token, TokenType};
pub use parser::error::ParseError;
pub use parser::parser::Parser;
pub use parser::resolver::Resolver;
pub use runtime::control_flow::ControlFlow;
pub use runtime::environment::Environment;
pub use runtime::function::{Callable, Clock, EnvRef, Function};
pub use runtime::host::{Arithmetic, Float, FloatOrder, Host};
pub use runtime::interpreter::Interpreter;
pub use runtime::runtime_error::RuntimeError;
pub use runtime::value::Value;

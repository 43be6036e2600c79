//! Evaluation: values, environments, callables and the interpreter.

pub mod control_flow;
pub mod environment;
pub mod execution;
pub mod function;
pub mod host;
pub mod interpreter;
pub mod invariants;
pub mod laws;
pub mod runtime_error;
pub mod semantics;
pub mod value;

//! A small compiler and stack machine for parenthesised arithmetic expressions.
//!
//! An expression tree is lowered by a `ProgramBuilder` into a typed, linear
//! `Program`, whose operators are chosen at compile time from the static
//! types of their operands; `Program::eval` then runs it on a value stack.
pub mod arithmetic;
pub mod ast;
pub mod cvm;
pub mod error;
pub mod laws;
pub mod value;
pub mod words;

pub use arithmetic::Proc;
pub use ast::Expr;
pub use cvm::{Execution, Instruction, Program, ProgramBuilder, Stack, MAX_DEPTH};
pub use error::{CompileError, RuntimeError};
pub use value::{Value, ValueType};
pub use words::{lookup, normalize_multiple_args, Registry, Word};

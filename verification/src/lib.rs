//! A small formula language: a grammar for arithmetic expressions over named
//! values, a tree for parsed formulas, and an evaluator with a fixed table of
//! mathematical functions.
//!
//! The library decides everything about a formula except the arithmetic on
//! doubles itself. A double is carried as its IEEE-754 binary64 bit pattern in
//! a `u64`; a numeral stays as it was written. The caller supplies a kernel, a
//! function that reads numerals and carries out the primitive operations.

pub mod ast;
pub mod chars;
pub mod compute;
pub mod eval;
pub mod grammar;
pub mod kernel;
pub mod lexical;
pub mod parser;
pub mod payload;
pub mod rendering;
pub mod soundness;

pub use crate::ast::{Expr, Operator};
pub use crate::compute::{compute, evaluate, ComputeError, Pair};
pub use crate::eval::{evaluate_ast, Builtin, EvalError};
pub use crate::kernel::{BinaryFn, Operation, UnaryFn};
pub use crate::parser::{parse_formula, SyntaxError};
pub use crate::payload::{decode, encode, Field, MalformedAstPayload, Payload};

//! A small expression interpreter.
//!
//! Text is scanned into tokens, parsed by recursive descent into an
//! abstract syntax tree, and evaluated to a typed value: a number or a
//! boolean.  Numbers are IEEE 754 binary64 values, carried as their
//! 64-bit patterns; the arithmetic on them is done in software so that
//! every stage of the pipeline has an exact contract.

pub mod ast;
pub mod interpreter;
pub mod numerics;
pub mod parser;
pub mod render;
pub mod scanner;
pub mod tokens;

//! An interpreter for DIS, a minimalist assembly-like language: a lexer,
//! a statement parser, an import resolver with cycle detection, a label
//! indexer, and a virtual machine with registers, linear memory, compare
//! flags, a bounded return stack, and line-based input/output buffers.

pub mod dis;
pub mod errors;
pub mod statement;
pub mod laws;
pub mod lexer;
pub mod loader;
pub mod text;

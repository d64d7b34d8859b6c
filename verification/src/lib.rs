//! A small bytecode compiler and virtual machine for a Lox-like expression
//! language: a scanner with string interpolation, a Pratt-style compiler that
//! emits stack bytecode, a run-length line table, a disassembler and a virtual
//! machine whose decisions are verified step by step.
pub mod line;
pub mod compiler;
pub mod text;
pub mod bytecode;
pub mod runtime;
pub mod debug;
pub mod error;

//! Source text to bytecode: tokens, scanner, precedence table, compile errors
//! and the single-pass compiler.
pub mod token;
pub mod precedence;
pub mod scanner;
pub mod error;
pub mod compile;

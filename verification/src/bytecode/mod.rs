//! Bytecode: instructions, constants and the values they produce.
pub mod value;
pub mod chunk;

//! The crate-level error types.
use vstd::prelude::*;

verus! {

/// An error while running bytecode.
#[derive(Clone, Copy, Debug, PartialEq, Eq, Structural)]
pub enum RuntimeError {
    StackUnderflow { needed: usize, found: usize, ip: usize },
    BadConstantIndex { index: usize, ip: usize },
    InvalidOpCode { opcode: u8, ip: usize },
}

/// An error while compiling.
#[derive(Clone, Copy, Debug, PartialEq, Eq, Structural)]
pub enum CompilationError {
    Placeholder,
}

/// Any error of the interpreter.
#[derive(Clone, Copy, Debug, PartialEq, Eq, Structural)]
pub enum Error {
    RuntimeError(RuntimeError),
    CompilationError(CompilationError),
}

} // verus!

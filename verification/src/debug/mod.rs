//! Disassembly of chunks for tracing.
pub mod tracer;

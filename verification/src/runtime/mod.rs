//! Running bytecode.
pub mod error;
pub mod machine;

//! Errors raised while running bytecode.
use vstd::prelude::*;
use crate::text::{push_decimal, push_str, decimal};

verus! {

/// The operator an error is about.
#[derive(Clone, Copy, Debug, PartialEq, Eq, Structural)]
pub enum Operator {
    Negate,
    Add,
    Subtract,
    Multiply,
    Divide,
}

/// The type of a value.
#[derive(Clone, Copy, Debug, PartialEq, Eq, Structural)]
pub enum ValueType {
    Number,
    Boolean,
    Nil,
    String,
}

impl Operator {
    pub open spec fn spec_symbol(&self) -> Seq<char> {
        match self {
            Operator::Negate => "negate"@,
            Operator::Add => "+"@,
            Operator::Subtract => "-"@,
            Operator::Multiply => "*"@,
            Operator::Divide => "/"@,
        }
    }

    /// How the operator is written in messages.
    pub fn symbol(&self) -> (s: &'static str)
        ensures
            s@ == self.spec_symbol(),
    {
        match self {
            Operator::Negate => "negate",
            Operator::Add => "+",
            Operator::Subtract => "-",
            Operator::Multiply => "*",
            Operator::Divide => "/",
        }
    }
}

impl ValueType {
    pub open spec fn spec_name(&self) -> Seq<char> {
        match self {
            ValueType::Number => "number"@,
            ValueType::Boolean => "boolean"@,
            ValueType::Nil => "nil"@,
            ValueType::String => "string"@,
        }
    }

    /// The type's name.
    pub fn name(&self) -> (s: &'static str)
        ensures
            s@ == self.spec_name(),
    {
        match self {
            ValueType::Number => "number",
            ValueType::Boolean => "boolean",
            ValueType::Nil => "nil",
            ValueType::String => "string",
        }
    }
}

/// What went wrong while running an instruction, and at which offset.
#[derive(Clone, Copy, Debug, PartialEq, Eq, Structural)]
pub enum RuntimeError {
    StackUnderflow { needed: usize, found: usize, ip: usize },
    BadConstantIndex { index: usize, ip: usize },
    InvalidOpCode { opcode: u8, ip: usize },
    BinaryTypeError { op: Operator, a: ValueType, b: ValueType, ip: usize },
    UnaryTypeError { op: Operator, got: ValueType, ip: usize },
}

/// The text of a runtime error.
pub open spec fn runtime_message(e: RuntimeError) -> Seq<char> {
    match e {
        RuntimeError::StackUnderflow { needed, found, ip } => "Stack underflow at ip "@ + decimal(
            ip as nat,
        ) + " (needed "@ + decimal(needed as nat) + ", found "@ + decimal(found as nat) + ")"@,
        RuntimeError::BadConstantIndex { index, ip } => "Constant index out of range at ip "@
            + decimal(ip as nat) + " (index "@ + decimal(index as nat) + ")"@,
        RuntimeError::InvalidOpCode { opcode, ip } => "Invalid opcode "@ + decimal(opcode as nat)
            + " at ip "@ + decimal(ip as nat),
        RuntimeError::BinaryTypeError { op, a, b, ip } => "Type error at ip "@ + decimal(ip as nat)
            + ": "@ + op.spec_symbol() + " expected number(s), got "@ + a.spec_name() + " and "@
            + b.spec_name(),
        RuntimeError::UnaryTypeError { op, got, ip } => "Type error at ip "@ + decimal(ip as nat)
            + ": "@ + op.spec_symbol() + " expected number, got "@ + got.spec_name(),
    }
}

impl RuntimeError {
    /// The text of the error.
    pub fn message(&self) -> (s: String)
        ensures
            s@ == runtime_message(*self),
    {
        let mut s = String::new();
        match *self {
            RuntimeError::StackUnderflow { needed, found, ip } => {
                push_str(&mut s, "Stack underflow at ip ");
                push_decimal(&mut s, ip as u64);
                push_str(&mut s, " (needed ");
                push_decimal(&mut s, needed as u64);
                push_str(&mut s, ", found ");
                push_decimal(&mut s, found as u64);
                push_str(&mut s, ")");
            },
            RuntimeError::BadConstantIndex { index, ip } => {
                push_str(&mut s, "Constant index out of range at ip ");
                push_decimal(&mut s, ip as u64);
                push_str(&mut s, " (index ");
                push_decimal(&mut s, index as u64);
                push_str(&mut s, ")");
            },
            RuntimeError::InvalidOpCode { opcode, ip } => {
                push_str(&mut s, "Invalid opcode ");
                push_decimal(&mut s, opcode as u64);
                push_str(&mut s, " at ip ");
                push_decimal(&mut s, ip as u64);
            },
            RuntimeError::BinaryTypeError { op, a, b, ip } => {
                push_str(&mut s, "Type error at ip ");
                push_decimal(&mut s, ip as u64);
                push_str(&mut s, ": ");
                push_str(&mut s, op.symbol());
                push_str(&mut s, " expected number(s), got ");
                push_str(&mut s, a.name());
                push_str(&mut s, " and ");
                push_str(&mut s, b.name());
            },
            RuntimeError::UnaryTypeError { op, got, ip } => {
                push_str(&mut s, "Type error at ip ");
                push_decimal(&mut s, ip as u64);
                push_str(&mut s, ": ");
                push_str(&mut s, op.symbol());
                push_str(&mut s, " expected number, got ");
                push_str(&mut s, got.name());
            },
        }
        proof {
            assert(s@ =~= runtime_message(*self));
        }
        s
    }

    pub open spec fn spec_ip(&self) -> usize {
        match self {
            RuntimeError::StackUnderflow { ip, .. } => *ip,
            RuntimeError::BadConstantIndex { ip, .. } => *ip,
            RuntimeError::InvalidOpCode { ip, .. } => *ip,
            RuntimeError::BinaryTypeError { ip, .. } => *ip,
            RuntimeError::UnaryTypeError { ip, .. } => *ip,
        }
    }

    /// The offset the error is reported at.
    pub fn ip(&self) -> (r: usize)
        ensures
            r == self.spec_ip(),
    {
        match *self {
            RuntimeError::StackUnderflow { ip, .. } => ip,
            RuntimeError::BadConstantIndex { ip, .. } => ip,
            RuntimeError::InvalidOpCode { ip, .. } => ip,
            RuntimeError::BinaryTypeError { ip, .. } => ip,
            RuntimeError::UnaryTypeError { ip, .. } => ip,
        }
    }
}

} // verus!

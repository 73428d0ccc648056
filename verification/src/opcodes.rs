//! The closed instruction set of the virtual machine. Each opcode is one byte
//! on the wire; the byte values form a fixed table that the compiler and the
//! machine share.
use vstd::prelude::*;

verus! {

#[derive(Clone, Copy, Debug, PartialEq, Eq, Structural)]
pub enum OpCode {
    Return,
    /// Push a 32-bit integer constant; followed by 4 big-endian operand bytes.
    Int,
    Negate,
    Add,
    Subtract,
    Multiply,
    Divide,
    /// Push a 64-bit float constant; followed by 8 big-endian operand bytes.
    Float,
}

/// The wire byte of each opcode.
pub open spec fn spec_opcode_to_u8(op: OpCode) -> u8 {
    match op {
        OpCode::Return => 0,
        OpCode::Int => 1,
        OpCode::Negate => 2,
        OpCode::Add => 3,
        OpCode::Subtract => 4,
        OpCode::Multiply => 5,
        OpCode::Divide => 6,
        OpCode::Float => 7,
    }
}

/// The opcode denoted by a wire byte; bytes outside the table decode to nothing.
pub open spec fn spec_opcode_from_u8(b: u8) -> Option<OpCode> {
    if b == 0 {
        Some(OpCode::Return)
    } else if b == 1 {
        Some(OpCode::Int)
    } else if b == 2 {
        Some(OpCode::Negate)
    } else if b == 3 {
        Some(OpCode::Add)
    } else if b == 4 {
        Some(OpCode::Subtract)
    } else if b == 5 {
        Some(OpCode::Multiply)
    } else if b == 6 {
        Some(OpCode::Divide)
    } else if b == 7 {
        Some(OpCode::Float)
    } else {
        None
    }
}

#[verifier::when_used_as_spec(spec_opcode_to_u8)]
pub fn opcode_to_u8(op: OpCode) -> (b: u8)
    ensures
        b == spec_opcode_to_u8(op),
{
    match op {
        OpCode::Return => 0,
        OpCode::Int => 1,
        OpCode::Negate => 2,
        OpCode::Add => 3,
        OpCode::Subtract => 4,
        OpCode::Multiply => 5,
        OpCode::Divide => 6,
        OpCode::Float => 7,
    }
}

#[verifier::when_used_as_spec(spec_opcode_from_u8)]
pub fn opcode_from_u8(b: u8) -> (op: Option<OpCode>)
    ensures
        op == spec_opcode_from_u8(b),
{
    if b == 0 {
        Some(OpCode::Return)
    } else if b == 1 {
        Some(OpCode::Int)
    } else if b == 2 {
        Some(OpCode::Negate)
    } else if b == 3 {
        Some(OpCode::Add)
    } else if b == 4 {
        Some(OpCode::Subtract)
    } else if b == 5 {
        Some(OpCode::Multiply)
    } else if b == 6 {
        Some(OpCode::Divide)
    } else if b == 7 {
        Some(OpCode::Float)
    } else {
        None
    }
}

/// The two sides of the opcode table agree: decoding an encoded opcode gives
/// it back, and a byte that decodes came from the opcode it decodes to.
pub proof fn lemma_opcode_table_round_trip(op: OpCode, b: u8)
    ensures
        spec_opcode_from_u8(spec_opcode_to_u8(op)) == Some(op),
        spec_opcode_from_u8(b) matches Some(o) ==> spec_opcode_to_u8(o) == b,
{
}

} // verus!

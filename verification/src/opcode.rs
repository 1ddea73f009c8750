//! The instruction set and its one-byte encoding.

use vstd::prelude::*;

verus! {

/// The only runtime value: one unsigned byte.
pub type Value = u8;

/// The closed set of operations the machine understands.
#[derive(Debug, Clone, Copy, PartialEq, Eq, Structural)]
pub enum OpCode {
    OpReturn,
    OpConstant,
    OpNegate,
    OpAdd,
    OpSubtract,
    OpMultiply,
    OpDivide,
    OpModulo,
}

/// The byte that stands for `op` in an instruction stream.
pub open spec fn encode(op: OpCode) -> u8 {
    match op {
        OpCode::OpReturn => 0x00,
        OpCode::OpConstant => 0x01,
        OpCode::OpNegate => 0x02,
        OpCode::OpAdd => 0x03,
        OpCode::OpSubtract => 0x04,
        OpCode::OpMultiply => 0x05,
        OpCode::OpDivide => 0x06,
        OpCode::OpModulo => 0x07,
    }
}

/// The operation that byte `b` stands for, if any.
pub open spec fn decode(b: u8) -> Option<OpCode> {
    if b == 0x00 {
        Some(OpCode::OpReturn)
    } else if b == 0x01 {
        Some(OpCode::OpConstant)
    } else if b == 0x02 {
        Some(OpCode::OpNegate)
    } else if b == 0x03 {
        Some(OpCode::OpAdd)
    } else if b == 0x04 {
        Some(OpCode::OpSubtract)
    } else if b == 0x05 {
        Some(OpCode::OpMultiply)
    } else if b == 0x06 {
        Some(OpCode::OpDivide)
    } else if b == 0x07 {
        Some(OpCode::OpModulo)
    } else {
        None
    }
}

/// Encodes an operation as its byte.
pub fn opcode_to_u8(op: OpCode) -> (b: u8)
    ensures
        b == encode(op),
{
    match op {
        OpCode::OpReturn => 0x00,
        OpCode::OpConstant => 0x01,
        OpCode::OpNegate => 0x02,
        OpCode::OpAdd => 0x03,
        OpCode::OpSubtract => 0x04,
        OpCode::OpMultiply => 0x05,
        OpCode::OpDivide => 0x06,
        OpCode::OpModulo => 0x07,
    }
}

/// Decodes a byte; `None` for any byte that is not an operation.
pub fn u8_to_opcode(b: u8) -> (op: Option<OpCode>)
    ensures
        op == decode(b),
{
    Some(
        match b {
            0x00 => OpCode::OpReturn,
            0x01 => OpCode::OpConstant,
            0x02 => OpCode::OpNegate,
            0x03 => OpCode::OpAdd,
            0x04 => OpCode::OpSubtract,
            0x05 => OpCode::OpMultiply,
            0x06 => OpCode::OpDivide,
            0x07 => OpCode::OpModulo,
            _ => return None,
        },
    )
}

/// Decoding undoes encoding: every operation is got back from its byte.
pub proof fn lemma_decode_encode(op: OpCode)
    ensures
        decode(encode(op)) == Some(op),
{
}

/// Encoding undoes decoding: a byte that decodes to an operation is that
/// operation's byte, so no two bytes stand for the same operation.
pub proof fn lemma_encode_decode(b: u8)
    ensures
        decode(b) matches Some(op) ==> encode(op) == b,
{
}

/// Different operations have different bytes.
pub proof fn lemma_encode_injective(a: OpCode, b: OpCode)
    requires
        encode(a) == encode(b),
    ensures
        a == b,
{
}

/// The bytes that stand for an operation are exactly 0 to 7; each of the
/// other 248 bytes decodes to `None`.
pub proof fn lemma_decode_defined(b: u8)
    ensures
        decode(b) is Some <==> b <= 0x07,
        decode(b) is None <==> forall|op: OpCode| encode(op) != b,
{
    if let Some(op) = decode(b) {
        assert(encode(op) == b);
    }
}

} // verus!

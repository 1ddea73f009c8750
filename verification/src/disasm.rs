//! The disassembler: a listing of a chunk, one line of text per instruction.
//!
//! Disassembly is for diagnostics, so it accepts any chunk: a byte that is no
//! opcode, an operand that is missing and an index that names no constant are
//! all shown rather than refused. What the text of a line is, character by
//! character, is given by [`instruction_text`]; the functions here return the
//! text and leave printing it to the caller.

use vstd::prelude::*;
use vstd::string::*;
use crate::chunk::{Chunk, ChunkView};
use crate::opcode::{decode, u8_to_opcode, OpCode, Value};
use crate::text::{
    align_left, align_right, append_decimal, append_decimal_left, append_decimal_right,
    append_hex_byte, append_left, decimal, hex_byte,
};

verus! {

/// The name under which an operation is listed.
pub open spec fn mnemonic(op: OpCode) -> Seq<char> {
    match op {
        OpCode::OpReturn => "OpReturn"@,
        OpCode::OpConstant => "OpConstant"@,
        OpCode::OpNegate => "OpNegate"@,
        OpCode::OpAdd => "OpAdd"@,
        OpCode::OpSubtract => "OpSubtract"@,
        OpCode::OpMultiply => "OpMultiply"@,
        OpCode::OpDivide => "OpDivide"@,
        OpCode::OpModulo => "OpModulo"@,
    }
}

/// What every line of a listing starts with: the offset in at least four
/// digits, the source line in a field of four, and the name of the operation
/// in a field of twelve.
pub open spec fn line_start(offset: int, line: u8, name: Seq<char>) -> Seq<char> {
    align_right(decimal(offset as nat), 4, '0') + "  line "@ + align_right(
        decimal(line as nat),
        4,
        ' ',
    ) + "  "@ + align_left(name, 12)
}

/// The operand byte of the instruction at `offset`; 0 if the code ends
/// before it.
pub open spec fn operand(chunk: ChunkView, offset: int) -> u8 {
    if offset + 1 < chunk.code.len() {
        chunk.code[offset + 1]
    } else {
        0
    }
}

/// The constant with index `index`, if the pool has one.
pub open spec fn constant(chunk: ChunkView, index: u8) -> Option<Value> {
    if index < chunk.constants.len() {
        Some(chunk.constants[index as int])
    } else {
        None
    }
}

/// How a constant that may be absent is shown.
pub open spec fn constant_text(value: Option<Value>) -> Seq<char> {
    match value {
        Some(v) => "Some("@ + decimal(v as nat) + ")"@,
        None => "None"@,
    }
}

/// The line of text for the instruction at `offset`.
pub open spec fn instruction_text(chunk: ChunkView, offset: int) -> Seq<char>
    recommends
        0 <= offset < chunk.code.len(),
        chunk.in_lockstep(),
{
    let byte = chunk.code[offset];
    let line = chunk.lines[offset];
    match decode(byte) {
        Some(OpCode::OpConstant) => {
            let index = operand(chunk, offset);
            line_start(offset, line, mnemonic(OpCode::OpConstant)) + " idx="@ + align_left(
                decimal(index as nat),
                3,
            ) + " value="@ + constant_text(constant(chunk, index))
        },
        Some(op) => line_start(offset, line, mnemonic(op)),
        None => line_start(offset, line, "????"@) + " 0x"@ + hex_byte(byte) + " (unknown)"@,
    }
}

/// The number of bytes the instruction at `offset` takes: two for a
/// `Constant` with its operand, whether or not the operand is there, and one
/// for everything else, a byte that is no opcode included.
pub open spec fn instruction_size(chunk: ChunkView, offset: int) -> int
    recommends
        0 <= offset < chunk.code.len(),
{
    if decode(chunk.code[offset]) == Some(OpCode::OpConstant) {
        2
    } else {
        1
    }
}

/// The lines for the instructions from `offset` to the end of the code.
pub open spec fn listing_from(chunk: ChunkView, offset: int) -> Seq<Seq<char>>
    decreases chunk.code.len() + 1 - offset,
{
    if 0 <= offset < chunk.code.len() {
        seq![instruction_text(chunk, offset)] + listing_from(
            chunk,
            offset + instruction_size(chunk, offset),
        )
    } else {
        Seq::empty()
    }
}

/// The heading of a listing.
pub open spec fn heading(name: Seq<char>) -> Seq<char> {
    "== "@ + name + " =="@
}

/// The whole listing of a chunk: the heading, then one line for each
/// instruction from offset 0 on.
pub open spec fn listing(chunk: ChunkView, name: Seq<char>) -> Seq<Seq<char>> {
    seq![heading(name)] + listing_from(chunk, 0)
}

/// The texts of a vector of strings.
pub open spec fn texts(lines: Seq<String>) -> Seq<Seq<char>> {
    lines.map_values(|line: String| line@)
}

/// The name of an operation as text.
fn opcode_name(op: OpCode) -> (name: &'static str)
    ensures
        name@ == mnemonic(op),
{
    match op {
        OpCode::OpReturn => "OpReturn",
        OpCode::OpConstant => "OpConstant",
        OpCode::OpNegate => "OpNegate",
        OpCode::OpAdd => "OpAdd",
        OpCode::OpSubtract => "OpSubtract",
        OpCode::OpMultiply => "OpMultiply",
        OpCode::OpDivide => "OpDivide",
        OpCode::OpModulo => "OpModulo",
    }
}

/// Starts a line of a listing.
fn start_line(offset: usize, line: u8, name: &str) -> (out: String)
    ensures
        out@ == line_start(offset as int, line, name@),
{
    let mut out = String::new();
    proof {
        reveal_strlit("0");
        reveal_strlit(" ");
    }
    append_decimal_right(&mut out, offset, 4, "0");
    out.append("  line ");
    append_decimal_right(&mut out, line as usize, 4, " ");
    out.append("  ");
    append_left(&mut out, name, 12);
    assert(out@ == line_start(offset as int, line, name@));
    out
}

impl Chunk {
    /// Renders the instruction at `offset` and returns its text together
    /// with the offset of the instruction after it.
    pub fn disassemble_instruction(&self, offset: usize) -> (rendered: (String, usize))
        requires
            offset < self@.code.len(),
            offset + 2 <= usize::MAX,
        ensures
            rendered.0@ == instruction_text(self@, offset as int),
            rendered.1 == offset + instruction_size(self@, offset as int),
    {
        let code = self.code();
        let line = self.lines()[offset];
        let byte = code[offset];
        match u8_to_opcode(byte) {
            Some(OpCode::OpConstant) => {
                let index = if offset + 1 < code.len() {
                    code[offset + 1]
                } else {
                    0
                };
                let constants = self.constants();
                let mut out = start_line(offset, line, opcode_name(OpCode::OpConstant));
                out.append(" idx=");
                append_decimal_left(&mut out, index as usize, 3);
                out.append(" value=");
                if (index as usize) < constants.len() {
                    out.append("Some(");
                    append_decimal(&mut out, constants[index as usize] as usize);
                    out.append(")");
                } else {
                    out.append("None");
                }
                assert(out@ == instruction_text(self@, offset as int));
                (out, offset + 2)
            },
            Some(op) => (start_line(offset, line, opcode_name(op)), offset + 1),
            None => {
                let mut out = start_line(offset, line, "????");
                out.append(" 0x");
                append_hex_byte(&mut out, byte);
                out.append(" (unknown)");
                assert(out@ == instruction_text(self@, offset as int));
                (out, offset + 1)
            },
        }
    }

    /// The listing of the whole chunk under the heading `name`: one string
    /// per line, the heading first.
    pub fn disassemble(&self, name: &str) -> (lines: Vec<String>)
        requires
            self@.code.len() < usize::MAX,
        ensures
            texts(lines@) == listing(self@, name@),
    {
        let mut first = String::new();
        first.append("== ");
        first.append(name);
        first.append(" ==");
        let mut lines: Vec<String> = Vec::new();
        lines.push(first);
        assert(texts(lines@) == seq![heading(name@)]);

        let len = self.code().len();
        let mut offset: usize = 0;
        while offset < len
            invariant
                len == self@.code.len(),
                len < usize::MAX,
                offset <= len + 1,
                texts(lines@) + listing_from(self@, offset as int) == listing(self@, name@),
            decreases len + 1 - offset,
        {
            let ghost before = texts(lines@);
            let (text, next) = self.disassemble_instruction(offset);
            lines.push(text);
            assert(texts(lines@) == before.push(instruction_text(self@, offset as int)));
            assert(before + listing_from(self@, offset as int) == texts(lines@) + listing_from(
                self@,
                next as int,
            ));
            offset = next;
        }
        assert(texts(lines@) + listing_from(self@, offset as int) == texts(lines@));
        lines
    }
}

} // verus!

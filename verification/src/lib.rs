//! A minimal stack-based bytecode virtual machine.

pub mod chunk;
pub mod disasm;
pub mod opcode;
pub mod scanner;
pub mod text;
pub mod vm;

pub use chunk::Chunk;
pub use opcode::{opcode_to_u8, u8_to_opcode, OpCode, Value};
pub use scanner::{Scanner, Token, TokenType};
pub use vm::{InterpretResult, VirtualMachine};

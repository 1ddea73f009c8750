use bytecode_vm::{opcode_to_u8, u8_to_opcode, OpCode};

const ALL: [(OpCode, u8); 8] = [
    (OpCode::OpReturn, 0x00),
    (OpCode::OpConstant, 0x01),
    (OpCode::OpNegate, 0x02),
    (OpCode::OpAdd, 0x03),
    (OpCode::OpSubtract, 0x04),
    (OpCode::OpMultiply, 0x05),
    (OpCode::OpDivide, 0x06),
    (OpCode::OpModulo, 0x07),
];

#[test]
fn opcode_mappings_roundtrip() {
    let table = [
        (OpCode::OpReturn, 0x00),
        (OpCode::OpConstant, 0x01),
        (OpCode::OpNegate, 0x02),
        (OpCode::OpAdd, 0x03),
        (OpCode::OpSubtract, 0x04),
        (OpCode::OpMultiply, 0x05),
        (OpCode::OpDivide, 0x06),
        (OpCode::OpModulo, 0x07),
    ];

    for (op, byte) in table {
        assert_eq!(opcode_to_u8(op), byte, "opcode_to_u8 mismatch for {op:?}");
        assert_eq!(u8_to_opcode(byte), Some(op), "u8_to_opcode mismatch for 0x{byte:02X}");
    }

    // Unknown opcode should map to None
    assert_eq!(u8_to_opcode(0xFF), None);
}

#[test]
fn decode_inverts_encode_for_every_opcode() {
    for (op, _) in ALL {
        assert_eq!(u8_to_opcode(opcode_to_u8(op)), Some(op));
    }
}

#[test]
fn every_byte_outside_the_table_decodes_to_none() {
    for byte in 0x08..=0xFFu8 {
        assert_eq!(u8_to_opcode(byte), None, "byte 0x{byte:02X}");
    }
}

#[test]
fn encode_inverts_decode_for_every_byte() {
    let mut defined = 0;
    for byte in 0..=0xFFu8 {
        if let Some(op) = u8_to_opcode(byte) {
            assert_eq!(opcode_to_u8(op), byte);
            defined += 1;
        }
    }
    assert_eq!(defined, 8);
}

#[test]
fn encoding_is_injective() {
    for (i, (a, _)) in ALL.iter().enumerate() {
        for (j, (b, _)) in ALL.iter().enumerate() {
            if i != j {
                assert_ne!(opcode_to_u8(*a), opcode_to_u8(*b));
            }
        }
    }
}

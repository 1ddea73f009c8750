use bytecode_vm::{opcode_to_u8, Chunk, InterpretResult, OpCode, VirtualMachine};

fn push_constant(c: &mut Chunk, value: u8, line: u8) {
    let index = c.add_constant(value);
    c.write_to_chunk(opcode_to_u8(OpCode::OpConstant), line);
    c.write_to_chunk(index, line);
}

fn run_binary(op: OpCode, a: u8, b: u8) -> (InterpretResult, Vec<u8>) {
    let mut c = Chunk::init_chunk();
    push_constant(&mut c, a, 1);
    push_constant(&mut c, b, 1);
    c.write_to_chunk(opcode_to_u8(op), 1);
    c.write_to_chunk(opcode_to_u8(OpCode::OpReturn), 1);
    let mut vm = VirtualMachine::init_machine();
    let res = vm.interpret(c);
    (res, vm.stack)
}

#[test]
fn vm_exec_simple_arith() {
    // ((((8 + 2) - 3) * 4) / 5) % 3 -> 2; negate -> -2
    let mut c = Chunk::init_chunk();
    let l = 1;

    let i8 = c.add_constant(8);
    c.write_to_chunk(opcode_to_u8(OpCode::OpConstant), l);
    c.write_to_chunk(i8, l);

    let i2 = c.add_constant(2);
    c.write_to_chunk(opcode_to_u8(OpCode::OpConstant), l);
    c.write_to_chunk(i2, l);

    c.write_to_chunk(opcode_to_u8(OpCode::OpAdd), l);

    let i3 = c.add_constant(3);
    c.write_to_chunk(opcode_to_u8(OpCode::OpConstant), l);
    c.write_to_chunk(i3, l);

    c.write_to_chunk(opcode_to_u8(OpCode::OpSubtract), l);

    let i4 = c.add_constant(4);
    c.write_to_chunk(opcode_to_u8(OpCode::OpConstant), l);
    c.write_to_chunk(i4, l);

    c.write_to_chunk(opcode_to_u8(OpCode::OpMultiply), l);

    let i5 = c.add_constant(5);
    c.write_to_chunk(opcode_to_u8(OpCode::OpConstant), l);
    c.write_to_chunk(i5, l);

    c.write_to_chunk(opcode_to_u8(OpCode::OpDivide), l);

    let imod = c.add_constant(3);
    c.write_to_chunk(opcode_to_u8(OpCode::OpConstant), l);
    c.write_to_chunk(imod, l);

    c.write_to_chunk(opcode_to_u8(OpCode::OpModulo), l);
    c.write_to_chunk(opcode_to_u8(OpCode::OpNegate), l);
    c.write_to_chunk(opcode_to_u8(OpCode::OpReturn), l);

    let mut vm = VirtualMachine::init_machine();
    let res = vm.interpret(c);
    assert_eq!(res, InterpretResult::InterpretSuccess);
    // -2 in a byte cell
    assert_eq!(vm.stack.last().copied(), Some(-2i8 as u8));
    assert_eq!(vm.stack, vec![254]);
}

#[test]
fn vm_divide_by_zero_runtime_error() {
    let mut c = Chunk::init_chunk();
    let l = 1;
    let a = c.add_constant(10);
    let b = c.add_constant(0);

    c.write_to_chunk(opcode_to_u8(OpCode::OpConstant), l);
    c.write_to_chunk(a, l);
    c.write_to_chunk(opcode_to_u8(OpCode::OpConstant), l);
    c.write_to_chunk(b, l);
    c.write_to_chunk(opcode_to_u8(OpCode::OpDivide), l);
    c.write_to_chunk(opcode_to_u8(OpCode::OpReturn), l);

    let mut vm = VirtualMachine::init_machine();
    let res = vm.interpret(c);
    assert_eq!(res, InterpretResult::InterpretRuntimeError);
}

#[test]
fn vm_stack_underflow_runtime_error() {
    // Attempt to add with only one value on the stack.
    let mut c = Chunk::init_chunk();
    let l = 1;
    let a = c.add_constant(5);

    c.write_to_chunk(opcode_to_u8(OpCode::OpConstant), l);
    c.write_to_chunk(a, l);
    c.write_to_chunk(opcode_to_u8(OpCode::OpAdd), l); // needs two values
    c.write_to_chunk(opcode_to_u8(OpCode::OpReturn), l);

    let mut vm = VirtualMachine::init_machine();
    let res = vm.interpret(c);
    assert_eq!(res, InterpretResult::InterpretRuntimeError);
}

#[test]
fn new_machine_is_idle() {
    let vm = VirtualMachine::init_machine();
    assert!(vm.chunk.is_none());
    assert_eq!(vm.ip, 0);
    assert!(vm.stack.is_empty());
}

#[test]
fn run_without_a_chunk_is_a_runtime_error() {
    let mut vm = VirtualMachine::init_machine();
    assert_eq!(vm.run(), InterpretResult::InterpretRuntimeError);
    assert_eq!(vm.ip, 0);
    assert!(vm.stack.is_empty());
    assert!(vm.chunk.is_none());
}

#[test]
fn add_fifteen_and_forty_two() {
    let (res, stack) = run_binary(OpCode::OpAdd, 15, 42);
    assert_eq!(res, InterpretResult::InterpretSuccess);
    assert_eq!(stack.last().copied(), Some(57));
    assert_eq!(stack, vec![57]);
}

#[test]
fn interpret_loads_the_chunk_and_stops_after_return() {
    let mut c = Chunk::init_chunk();
    push_constant(&mut c, 7, 1);
    c.write_to_chunk(opcode_to_u8(OpCode::OpReturn), 1);
    // Never reached.
    c.write_to_chunk(opcode_to_u8(OpCode::OpAdd), 2);
    let mut vm = VirtualMachine::init_machine();
    assert_eq!(vm.interpret(c), InterpretResult::InterpretSuccess);
    assert_eq!(vm.ip, 3);
    assert_eq!(vm.stack, vec![7]);
    let loaded = vm.chunk.as_ref().expect("chunk stays loaded");
    assert_eq!(loaded.code(), vec![0x01, 0x00, 0x00, 0x03]);
    assert_eq!(loaded.constants(), vec![7]);
}

#[test]
fn add_subtract_multiply_wrap_modulo_256() {
    assert_eq!(run_binary(OpCode::OpAdd, 255, 2).1, vec![1]);
    assert_eq!(run_binary(OpCode::OpSubtract, 0, 1).1, vec![255]);
    assert_eq!(run_binary(OpCode::OpMultiply, 16, 16).1, vec![0]);
    assert_eq!(run_binary(OpCode::OpMultiply, 200, 3).1, vec![88]);
    for a in [0u8, 1, 2, 100, 127, 128, 200, 254, 255] {
        for b in [0u8, 1, 2, 3, 77, 128, 129, 255] {
            let (a16, b16) = (a as i32, b as i32);
            let (res, stack) = run_binary(OpCode::OpAdd, a, b);
            assert_eq!(res, InterpretResult::InterpretSuccess);
            assert_eq!(stack, vec![((a16 + b16).rem_euclid(256)) as u8]);
            let (res, stack) = run_binary(OpCode::OpSubtract, a, b);
            assert_eq!(res, InterpretResult::InterpretSuccess);
            assert_eq!(stack, vec![((a16 - b16).rem_euclid(256)) as u8]);
            let (res, stack) = run_binary(OpCode::OpMultiply, a, b);
            assert_eq!(res, InterpretResult::InterpretSuccess);
            assert_eq!(stack, vec![((a16 * b16).rem_euclid(256)) as u8]);
        }
    }
}

#[test]
fn operands_are_taken_left_then_right() {
    assert_eq!(run_binary(OpCode::OpSubtract, 10, 3).1, vec![7]);
    assert_eq!(run_binary(OpCode::OpDivide, 20, 6).1, vec![3]);
    assert_eq!(run_binary(OpCode::OpModulo, 20, 6).1, vec![2]);
}

#[test]
fn negate_wraps_modulo_256() {
    for v in 0..=255u8 {
        let mut c = Chunk::init_chunk();
        push_constant(&mut c, v, 1);
        c.write_to_chunk(opcode_to_u8(OpCode::OpNegate), 1);
        c.write_to_chunk(opcode_to_u8(OpCode::OpReturn), 1);
        let mut vm = VirtualMachine::init_machine();
        assert_eq!(vm.interpret(c), InterpretResult::InterpretSuccess);
        assert_eq!(vm.stack, vec![((256 - v as u16) % 256) as u8]);
        assert_eq!(vm.stack[0], v.wrapping_neg());
    }
}

#[test]
fn divide_and_modulo_by_zero_fail_for_every_dividend() {
    for a in 0..=255u8 {
        let (res, stack) = run_binary(OpCode::OpDivide, a, 0);
        assert_eq!(res, InterpretResult::InterpretRuntimeError);
        assert!(stack.is_empty());
        let (res, stack) = run_binary(OpCode::OpModulo, a, 0);
        assert_eq!(res, InterpretResult::InterpretRuntimeError);
        assert!(stack.is_empty());
    }
}

#[test]
fn divide_and_modulo_do_not_wrap() {
    assert_eq!(run_binary(OpCode::OpDivide, 255, 2).1, vec![127]);
    assert_eq!(run_binary(OpCode::OpModulo, 255, 2).1, vec![1]);
    assert_eq!(run_binary(OpCode::OpDivide, 7, 255).1, vec![0]);
    assert_eq!(run_binary(OpCode::OpModulo, 7, 255).1, vec![7]);
}

#[test]
fn binary_operators_need_two_values() {
    let binary = [
        OpCode::OpAdd,
        OpCode::OpSubtract,
        OpCode::OpMultiply,
        OpCode::OpDivide,
        OpCode::OpModulo,
    ];
    for op in binary {
        for depth in 0..2 {
            let mut c = Chunk::init_chunk();
            for _ in 0..depth {
                push_constant(&mut c, 9, 1);
            }
            c.write_to_chunk(opcode_to_u8(op), 1);
            c.write_to_chunk(opcode_to_u8(OpCode::OpReturn), 1);
            let mut vm = VirtualMachine::init_machine();
            assert_eq!(vm.interpret(c), InterpretResult::InterpretRuntimeError, "{op:?}");
            assert!(vm.stack.is_empty());
            assert_eq!(vm.ip, 2 * depth + 1);
        }
    }
}

#[test]
fn negate_needs_one_value() {
    let mut c = Chunk::init_chunk();
    c.write_to_chunk(opcode_to_u8(OpCode::OpNegate), 1);
    c.write_to_chunk(opcode_to_u8(OpCode::OpReturn), 1);
    let mut vm = VirtualMachine::init_machine();
    assert_eq!(vm.interpret(c), InterpretResult::InterpretRuntimeError);
    assert!(vm.stack.is_empty());
}

#[test]
fn running_off_the_end_is_a_runtime_error() {
    let mut vm = VirtualMachine::init_machine();
    assert_eq!(vm.interpret(Chunk::init_chunk()), InterpretResult::InterpretRuntimeError);
    assert_eq!(vm.ip, 0);

    let mut c = Chunk::init_chunk();
    push_constant(&mut c, 1, 1);
    let mut vm = VirtualMachine::init_machine();
    assert_eq!(vm.interpret(c), InterpretResult::InterpretRuntimeError);
    assert_eq!(vm.ip, 2);
    assert_eq!(vm.stack, vec![1]);
}

#[test]
fn constant_without_operand_is_a_runtime_error() {
    let mut c = Chunk::init_chunk();
    c.add_constant(1);
    c.write_to_chunk(opcode_to_u8(OpCode::OpConstant), 1);
    let mut vm = VirtualMachine::init_machine();
    assert_eq!(vm.interpret(c), InterpretResult::InterpretRuntimeError);
    assert_eq!(vm.ip, 1);
    assert!(vm.stack.is_empty());
}

#[test]
fn constant_index_out_of_range_is_a_runtime_error() {
    let mut c = Chunk::init_chunk();
    c.add_constant(1);
    c.write_to_chunk(opcode_to_u8(OpCode::OpConstant), 1);
    c.write_to_chunk(1, 1);
    c.write_to_chunk(opcode_to_u8(OpCode::OpReturn), 1);
    let mut vm = VirtualMachine::init_machine();
    assert_eq!(vm.interpret(c), InterpretResult::InterpretRuntimeError);
    assert_eq!(vm.ip, 2);
    assert!(vm.stack.is_empty());
}

#[test]
fn unknown_opcode_is_a_runtime_error() {
    for byte in [0x08u8, 0x7F, 0xFF] {
        let mut c = Chunk::init_chunk();
        c.write_to_chunk(byte, 1);
        c.write_to_chunk(opcode_to_u8(OpCode::OpReturn), 1);
        let mut vm = VirtualMachine::init_machine();
        assert_eq!(vm.interpret(c), InterpretResult::InterpretRuntimeError);
        assert_eq!(vm.ip, 1);
    }
}

#[test]
fn no_run_ends_in_a_compile_error() {
    for byte in 0..=255u8 {
        let mut c = Chunk::init_chunk();
        c.add_constant(3);
        c.write_to_chunk(byte, 1);
        c.write_to_chunk(0, 1);
        let mut vm = VirtualMachine::init_machine();
        assert_ne!(vm.interpret(c), InterpretResult::InterpretCompileError);
    }
}

#[test]
fn interpret_starts_on_an_empty_stack() {
    let mut first = Chunk::init_chunk();
    push_constant(&mut first, 11, 1);
    push_constant(&mut first, 22, 1);
    first.write_to_chunk(opcode_to_u8(OpCode::OpReturn), 1);

    let mut second = Chunk::init_chunk();
    second.write_to_chunk(opcode_to_u8(OpCode::OpAdd), 1);
    second.write_to_chunk(opcode_to_u8(OpCode::OpReturn), 1);

    let mut vm = VirtualMachine::init_machine();
    assert_eq!(vm.interpret(first), InterpretResult::InterpretSuccess);
    assert_eq!(vm.stack, vec![11, 22]);
    // What the first run left is not there for the second.
    assert_eq!(vm.interpret(second), InterpretResult::InterpretRuntimeError);
    assert!(vm.stack.is_empty());
}

#[test]
fn run_goes_on_from_the_current_state() {
    let mut c = Chunk::init_chunk();
    c.write_to_chunk(opcode_to_u8(OpCode::OpReturn), 1);
    c.write_to_chunk(opcode_to_u8(OpCode::OpAdd), 1);
    c.write_to_chunk(opcode_to_u8(OpCode::OpReturn), 1);
    let mut vm = VirtualMachine::init_machine();
    vm.chunk = Some(c);
    vm.ip = 1;
    vm.stack = vec![5, 30, 12];
    assert_eq!(vm.run(), InterpretResult::InterpretSuccess);
    assert_eq!(vm.ip, 3);
    assert_eq!(vm.stack, vec![5, 42]);
    // The instruction pointer is now past the end.
    assert_eq!(vm.run(), InterpretResult::InterpretRuntimeError);
    assert_eq!(vm.ip, 3);
    assert_eq!(vm.stack, vec![5, 42]);
}

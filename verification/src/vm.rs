//! The virtual machine: an operand stack, an instruction pointer and the
//! fetch-decode-execute loop.
//!
//! The meaning of a program is given by [`step`], which says what one
//! instruction does to a machine, and by [`execute`], which repeats it until
//! the machine halts or fails. The executable machine is proved to end every
//! run in exactly the state and with exactly the result that [`execute`]
//! gives.

use vstd::prelude::*;
use crate::chunk::{Chunk, ChunkView};
use crate::opcode::{decode, u8_to_opcode, OpCode, Value};

verus! {

/// How a run ended.
#[derive(Debug, Clone, Copy, PartialEq, Eq, Structural)]
pub enum InterpretResult {
    /// A `Return` instruction was reached.
    InterpretSuccess,
    /// Kept for a front end that translates source text; no run ends so.
    InterpretCompileError,
    /// The program could not go on: see [`Fault`].
    InterpretRuntimeError,
}

/// Why a run failed. Every cause is reported as
/// [`InterpretResult::InterpretRuntimeError`]; the distinction exists in
/// specifications only.
pub enum Fault {
    /// The machine holds no chunk.
    NoProgram,
    /// The instruction pointer is at or past the end of the code.
    IpOverrun,
    /// A `Constant` opcode is the last byte of the code.
    TruncatedOperand,
    /// The operand of `Constant` is not the index of a pool entry.
    BadConstantIndex,
    /// An operator found fewer values on the stack than it takes.
    StackUnderflow,
    /// The right-hand operand of `Divide` or `Modulo` is zero.
    DivisionByZero,
    /// The byte in opcode position is no opcode.
    UnknownOpcode,
}

/// The mathematical state of a machine.
pub struct Machine {
    /// The chunk being run, if one is loaded.
    pub program: Option<ChunkView>,
    /// Offset into the chunk's code of the next byte to fetch.
    pub ip: int,
    /// The operand stack; its last element is the top.
    pub stack: Seq<Value>,
}

/// What one instruction does.
pub enum Step {
    /// The instruction was carried out; the run goes on from this machine.
    Next(Machine),
    /// `Return` was reached.
    Halt(Machine),
    /// The run failed, leaving the machine as given.
    Fail(Fault, Machine),
}

/// The result of a whole run and the machine it leaves.
pub struct Outcome {
    pub result: InterpretResult,
    pub machine: Machine,
}

/// Negation in the byte domain: the value that added to `v` gives 0 modulo 256.
pub open spec fn negate(v: Value) -> Value {
    ((256 - v) % 256) as Value
}

/// Whether `op` takes two operands from the stack.
pub open spec fn is_binary(op: OpCode) -> bool {
    op is OpAdd || op is OpSubtract || op is OpMultiply || op is OpDivide || op is OpModulo
}

/// The value of `a op b` for a binary operator: sums, differences and
/// products are taken modulo 256; quotient and remainder are the ordinary
/// ones and do not exist when `b` is zero.
pub open spec fn arithmetic(op: OpCode, a: Value, b: Value) -> Option<Value>
    recommends
        is_binary(op),
{
    match op {
        OpCode::OpAdd => Some(((a + b) % 256) as Value),
        OpCode::OpSubtract => Some(((a - b) % 256) as Value),
        OpCode::OpMultiply => Some(((a * b) % 256) as Value),
        OpCode::OpDivide => if b == 0 {
            None
        } else {
            Some(a / b)
        },
        OpCode::OpModulo => if b == 0 {
            None
        } else {
            Some(a % b)
        },
        _ => None,
    }
}

impl Machine {
    /// A machine that has just been given `chunk` to run from its start on an
    /// empty stack.
    pub open spec fn loaded(chunk: ChunkView) -> Machine {
        Machine { program: Some(chunk), ip: 0, stack: Seq::empty() }
    }

    /// The same machine with another instruction pointer.
    pub open spec fn at(self, ip: int) -> Machine {
        Machine { ip, ..self }
    }

    /// The same machine with another stack.
    pub open spec fn with_stack(self, stack: Seq<Value>) -> Machine {
        Machine { stack, ..self }
    }
}

/// One turn of the fetch-decode-execute loop.
pub open spec fn step(m: Machine) -> Step {
    match m.program {
        None => Step::Fail(Fault::NoProgram, m),
        Some(chunk) => {
            if !(0 <= m.ip < chunk.code.len()) {
                Step::Fail(Fault::IpOverrun, m)
            } else {
                let fetched = m.at(m.ip + 1);
                let depth = m.stack.len() as int;
                match decode(chunk.code[m.ip]) {
                    None => Step::Fail(Fault::UnknownOpcode, fetched),
                    Some(OpCode::OpReturn) => Step::Halt(fetched),
                    Some(OpCode::OpConstant) => {
                        if m.ip + 1 >= chunk.code.len() {
                            Step::Fail(Fault::TruncatedOperand, fetched)
                        } else {
                            let index = chunk.code[m.ip + 1] as int;
                            if index < chunk.constants.len() {
                                Step::Next(
                                    m.at(m.ip + 2).with_stack(m.stack.push(chunk.constants[index])),
                                )
                            } else {
                                Step::Fail(Fault::BadConstantIndex, m.at(m.ip + 2))
                            }
                        }
                    },
                    Some(OpCode::OpNegate) => {
                        if depth < 1 {
                            Step::Fail(Fault::StackUnderflow, fetched)
                        } else {
                            Step::Next(
                                fetched.with_stack(m.stack.drop_last().push(negate(m.stack.last()))),
                            )
                        }
                    },
                    Some(op) => {
                        if depth < 2 {
                            // Both operands are popped before either is looked at.
                            Step::Fail(Fault::StackUnderflow, fetched.with_stack(Seq::empty()))
                        } else {
                            let b = m.stack[depth - 1];
                            let a = m.stack[depth - 2];
                            let rest = m.stack.take(depth - 2);
                            match arithmetic(op, a, b) {
                                Some(value) => Step::Next(fetched.with_stack(rest.push(value))),
                                None => Step::Fail(Fault::DivisionByZero, fetched.with_stack(rest)),
                            }
                        }
                    },
                }
            }
        },
    }
}

/// The bytes of code that lie ahead of the instruction pointer. Every step
/// that does not end the run makes this smaller, so every run ends.
pub open spec fn remaining(m: Machine) -> int {
    match m.program {
        None => 0,
        Some(chunk) => if 0 <= m.ip <= chunk.code.len() {
            chunk.code.len() - m.ip
        } else {
            0
        },
    }
}

/// A whole run: steps are taken until one halts or fails.
pub open spec fn execute(m: Machine) -> Outcome
    decreases remaining(m),
{
    match step(m) {
        Step::Next(next) => execute(next),
        Step::Halt(end) => Outcome { result: InterpretResult::InterpretSuccess, machine: end },
        Step::Fail(_, end) => Outcome {
            result: InterpretResult::InterpretRuntimeError,
            machine: end,
        },
    }
}

/// Computes `a op b` for a binary operator; `None` where the divisor is zero.
fn binary(op: OpCode, a: Value, b: Value) -> (value: Option<Value>)
    requires
        is_binary(op),
    ensures
        value == arithmetic(op, a, b),
{
    match op {
        OpCode::OpAdd => Some(a.wrapping_add(b)),
        OpCode::OpSubtract => Some(a.wrapping_sub(b)),
        OpCode::OpMultiply => Some(a.wrapping_mul(b)),
        OpCode::OpDivide => if b == 0 {
            None
        } else {
            Some(a / b)
        },
        OpCode::OpModulo => if b == 0 {
            None
        } else {
            Some(a % b)
        },
        _ => None,
    }
}

/// A stack machine that runs one chunk at a time.
pub struct VirtualMachine {
    /// The chunk last handed to [`VirtualMachine::interpret`], if any.
    pub chunk: Option<Chunk>,
    /// Offset into the chunk's code of the next byte to fetch.
    pub ip: usize,
    /// The operand stack; its last element is the top.
    pub stack: Vec<Value>,
}

impl View for VirtualMachine {
    type V = Machine;

    open spec fn view(&self) -> Machine {
        Machine {
            program: match self.chunk {
                Some(chunk) => Some(chunk@),
                None => None,
            },
            ip: self.ip as int,
            stack: self.stack@,
        }
    }
}

impl VirtualMachine {
    /// A machine with no chunk, an empty stack and the instruction pointer
    /// at 0.
    pub fn init_machine() -> (vm: Self)
        ensures
            vm.chunk is None,
            vm.ip == 0,
            vm.stack@ == Seq::<Value>::empty(),
    {
        VirtualMachine { chunk: None, ip: 0, stack: Vec::new() }
    }

    /// Loads `chunk`, runs it from its first byte on an empty stack and says
    /// how the run ended.
    ///
    /// Whatever an earlier run left on the stack is discarded first, so that
    /// the result depends on `chunk` alone. To run on the stack as it is, set
    /// the fields and call [`VirtualMachine::run`].
    pub fn interpret(&mut self, chunk: Chunk) -> (result: InterpretResult)
        ensures
            result == execute(Machine::loaded(chunk@)).result,
            final(self)@ == execute(Machine::loaded(chunk@)).machine,
            final(self).chunk == Some(chunk),
            result != InterpretResult::InterpretCompileError,
    {
        self.chunk = Some(chunk);
        self.ip = 0;
        self.stack.clear();
        self.run()
    }

    /// Runs the loaded chunk from the current instruction pointer on the
    /// current stack until it halts or fails. Fails at once if no chunk is
    /// loaded.
    pub fn run(&mut self) -> (result: InterpretResult)
        ensures
            result == execute(old(self)@).result,
            final(self)@ == execute(old(self)@).machine,
            final(self).chunk == old(self).chunk,
            result != InterpretResult::InterpretCompileError,
    {
        loop
            invariant
                self.chunk == old(self).chunk,
                execute(self@) == execute(old(self)@),
            decreases remaining(self@),
        {
            let ghost before = self@;
            let chunk = match &self.chunk {
                Some(chunk) => chunk,
                None => return InterpretResult::InterpretRuntimeError,
            };
            let code = chunk.code();

            if self.ip >= code.len() {
                return InterpretResult::InterpretRuntimeError;
            }
            let instruction = code[self.ip];
            self.ip += 1;

            match u8_to_opcode(instruction) {
                Some(OpCode::OpReturn) => {
                    return InterpretResult::InterpretSuccess;
                },
                Some(OpCode::OpConstant) => {
                    if self.ip >= code.len() {
                        return InterpretResult::InterpretRuntimeError;
                    }
                    let constant_index = code[self.ip] as usize;
                    self.ip += 1;
                    let constants = chunk.constants();
                    if constant_index < constants.len() {
                        self.push(constants[constant_index]);
                    } else {
                        return InterpretResult::InterpretRuntimeError;
                    }
                },
                Some(OpCode::OpNegate) => {
                    if let Some(v) = self.pop() {
                        self.push(0u8.wrapping_sub(v));
                    } else {
                        return InterpretResult::InterpretRuntimeError;
                    }
                },
                Some(op) => {
                    let right = self.pop();
                    let left = self.pop();
                    if let (Some(b), Some(a)) = (right, left) {
                        assert(self.stack@ == before.stack.take(before.stack.len() - 2));
                        match binary(op, a, b) {
                            Some(value) => self.push(value),
                            None => return InterpretResult::InterpretRuntimeError,
                        }
                    } else {
                        assert(self.stack@ == Seq::<Value>::empty());
                        return InterpretResult::InterpretRuntimeError;
                    }
                },
                None => return InterpretResult::InterpretRuntimeError,
            }
            assert(step(before) == Step::Next(self@));
        }
    }

    fn push(&mut self, value: Value)
        ensures
            final(self).stack@ == old(self).stack@.push(value),
            final(self).ip == old(self).ip,
            final(self).chunk == old(self).chunk,
    {
        self.stack.push(value);
    }

    fn pop(&mut self) -> (top: Option<Value>)
        ensures
            old(self).stack@.len() == 0 ==> {
                &&& top is None
                &&& final(self).stack@ == old(self).stack@
            },
            old(self).stack@.len() > 0 ==> {
                &&& top == Some(old(self).stack@.last())
                &&& final(self).stack@ == old(self).stack@.drop_last()
            },
            final(self).ip == old(self).ip,
            final(self).chunk == old(self).chunk,
    {
        self.stack.pop()
    }
}

/// The operation at the instruction pointer of `m`, if the machine holds a
/// chunk, the pointer is inside its code and the byte there is an opcode.
pub open spec fn current_op(m: Machine) -> Option<OpCode> {
    match m.program {
        Some(chunk) if 0 <= m.ip < chunk.code.len() => decode(chunk.code[m.ip]),
        _ => None,
    }
}

/// A run never ends in a compile error, and it never changes the program.
pub proof fn lemma_execute_result(m: Machine)
    ensures
        execute(m).result != InterpretResult::InterpretCompileError,
        execute(m).machine.program == m.program,
    decreases remaining(m),
{
    if let Step::Next(next) = step(m) {
        lemma_execute_result(next);
    }
}

/// Arithmetic wraps around: with `a` below `b` on top of the stack, `Add`,
/// `Subtract` and `Multiply` replace the two by their sum, difference or
/// product modulo 256, and the run goes on with the next instruction.
pub proof fn lemma_arithmetic_wraps(m: Machine, a: Value, b: Value, rest: Seq<Value>)
    requires
        current_op(m) is Some,
        m.stack == rest.push(a).push(b),
    ensures
        current_op(m) == Some(OpCode::OpAdd) ==> step(m) == Step::Next(
            m.at(m.ip + 1).with_stack(rest.push(((a + b) % 256) as Value)),
        ),
        current_op(m) == Some(OpCode::OpSubtract) ==> step(m) == Step::Next(
            m.at(m.ip + 1).with_stack(rest.push(((a - b) % 256) as Value)),
        ),
        current_op(m) == Some(OpCode::OpMultiply) ==> step(m) == Step::Next(
            m.at(m.ip + 1).with_stack(rest.push(((a * b) % 256) as Value)),
        ),
{
    assert(m.stack.take(m.stack.len() - 2) == rest);
}

/// Negation wraps around: `Negate` replaces the top `v` of the stack by
/// `(256 - v) mod 256`, and the run goes on with the next instruction.
pub proof fn lemma_negate_wraps(m: Machine, v: Value, rest: Seq<Value>)
    requires
        current_op(m) == Some(OpCode::OpNegate),
        m.stack == rest.push(v),
    ensures
        step(m) == Step::Next(m.at(m.ip + 1).with_stack(rest.push(((256 - v) % 256) as Value))),
{
    assert(m.stack.drop_last() == rest);
}

/// Division by zero is an error: `Divide` and `Modulo` with zero on top of
/// at least one more value fail the run, whatever lies beneath. Both
/// operands are gone from the stack and nothing is pushed in their place.
pub proof fn lemma_division_by_zero_fails(m: Machine)
    requires
        current_op(m) == Some(OpCode::OpDivide) || current_op(m) == Some(OpCode::OpModulo),
        m.stack.len() >= 2,
        m.stack.last() == 0,
    ensures
        step(m) == Step::Fail(
            Fault::DivisionByZero,
            m.at(m.ip + 1).with_stack(m.stack.take(m.stack.len() - 2)),
        ),
        execute(m).result == InterpretResult::InterpretRuntimeError,
{
}

/// With a non-zero divisor `b` on top of `a`, `Divide` and `Modulo` replace
/// the two by the ordinary quotient or remainder.
pub proof fn lemma_division(m: Machine, a: Value, b: Value, rest: Seq<Value>)
    requires
        current_op(m) is Some,
        m.stack == rest.push(a).push(b),
        b != 0,
    ensures
        current_op(m) == Some(OpCode::OpDivide) ==> step(m) == Step::Next(
            m.at(m.ip + 1).with_stack(rest.push(a / b)),
        ),
        current_op(m) == Some(OpCode::OpModulo) ==> step(m) == Step::Next(
            m.at(m.ip + 1).with_stack(rest.push(a % b)),
        ),
{
    assert(m.stack.take(m.stack.len() - 2) == rest);
}

/// Stack discipline: a binary operator that finds fewer than two values
/// fails the run, and so does `Negate` on an empty stack. The stack that is
/// left is empty.
pub proof fn lemma_underflow_fails(m: Machine)
    requires
        current_op(m) matches Some(op) && ((is_binary(op) && m.stack.len() < 2) || (op
            is OpNegate && m.stack.len() < 1)),
    ensures
        step(m) == Step::Fail(
            Fault::StackUnderflow,
            m.at(m.ip + 1).with_stack(Seq::empty()),
        ),
        execute(m).result == InterpretResult::InterpretRuntimeError,
        execute(m).machine.stack.len() == 0,
{
    assert(m.stack.len() == 0 ==> m.stack == Seq::<Value>::empty());
}

} // verus!

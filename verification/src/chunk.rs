//! Chunks: an instruction stream with its per-byte line table and its
//! constant pool.
//!
//! A chunk is append-only. Instruction bytes and line numbers are appended
//! together by one operation, so the line table always has exactly one entry
//! per byte of code. Constants are appended separately and are referred to
//! from the instruction stream by a one-byte index.

use vstd::prelude::*;
use crate::opcode::Value;

verus! {

/// The number of constants a one-byte index can tell apart.
pub const MAX_CONSTANTS: usize = 256;

/// The mathematical content of a chunk: three sequences.
pub struct ChunkView {
    /// Instruction bytes: opcodes interleaved with their operand bytes.
    pub code: Seq<u8>,
    /// The source line of each byte of `code`.
    pub lines: Seq<u8>,
    /// The constant pool.
    pub constants: Seq<Value>,
}

impl ChunkView {
    /// The chunk with nothing in it.
    pub open spec fn empty() -> ChunkView {
        ChunkView { code: Seq::empty(), lines: Seq::empty(), constants: Seq::empty() }
    }

    /// The line table has one entry per byte of code.
    pub open spec fn in_lockstep(self) -> bool {
        self.lines.len() == self.code.len()
    }

    /// This chunk after one more byte, written for source line `line`.
    pub open spec fn write(self, byte: u8, line: u8) -> ChunkView {
        ChunkView { code: self.code.push(byte), lines: self.lines.push(line), ..self }
    }

    /// This chunk after each `(byte, line)` pair of `writes`, in order.
    pub open spec fn write_all(self, writes: Seq<(u8, u8)>) -> ChunkView
        decreases writes.len(),
    {
        if writes.len() == 0 {
            self
        } else {
            self.write_all(writes.drop_last()).write(writes.last().0, writes.last().1)
        }
    }

    /// The index handed out for the next constant: its position in the pool,
    /// cut down to one byte.
    pub open spec fn next_index(self) -> u8 {
        (self.constants.len() % 256) as u8
    }

    /// This chunk after one more constant.
    pub open spec fn add_constant(self, value: Value) -> ChunkView {
        ChunkView { constants: self.constants.push(value), ..self }
    }

    /// This chunk after each of `values` has been added to the pool, in order.
    pub open spec fn add_constants(self, values: Seq<Value>) -> ChunkView
        decreases values.len(),
    {
        if values.len() == 0 {
            self
        } else {
            self.add_constants(values.drop_last()).add_constant(values.last())
        }
    }
}

/// An append-only container of bytecode.
#[derive(Debug)]
pub struct Chunk {
    code: Vec<u8>,
    lines: Vec<u8>,
    values: Vec<Value>,
}

impl View for Chunk {
    type V = ChunkView;

    closed spec fn view(&self) -> ChunkView {
        ChunkView { code: self.code@, lines: self.lines@, constants: self.values@ }
    }
}

impl Chunk {
    #[verifier::type_invariant]
    spec fn lockstep(&self) -> bool {
        self.lines@.len() == self.code@.len()
    }

    /// A new, empty chunk.
    pub fn init_chunk() -> (chunk: Self)
        ensures
            chunk@ == ChunkView::empty(),
    {
        Chunk { code: Vec::new(), lines: Vec::new(), values: Vec::new() }
    }

    /// Appends `byte` to the code and `line` to the line table. The byte is
    /// not inspected: it may be an opcode, an operand or neither.
    pub fn write_to_chunk(&mut self, byte: u8, line: u8)
        ensures
            final(self)@ == old(self)@.write(byte, line),
            final(self)@.in_lockstep(),
    {
        proof {
            use_type_invariant(&*self);
        }
        // The two tables cannot be grown one after the other in place without
        // being out of step in between, so the chunk is taken apart and put
        // together again.
        let mut taken = Chunk::init_chunk();
        std::mem::swap(self, &mut taken);
        let Chunk { mut code, mut lines, values } = taken;
        code.push(byte);
        lines.push(line);
        *self = Chunk { code, lines, values };
    }

    /// Appends `value` to the constant pool and returns its index.
    ///
    /// The index is the value's position in the pool as long as the pool
    /// holds at most [`MAX_CONSTANTS`] entries; beyond that the position no
    /// longer fits in a byte and only its low eight bits are returned.
    pub fn add_constant(&mut self, value: Value) -> (index: u8)
        ensures
            final(self)@ == old(self)@.add_constant(value),
            index == old(self)@.next_index(),
            old(self)@.constants.len() < MAX_CONSTANTS ==> {
                &&& index == old(self)@.constants.len()
                &&& final(self)@.constants[index as int] == value
            },
            final(self)@.in_lockstep(),
    {
        proof {
            use_type_invariant(&*self);
        }
        let position = self.values.len();
        let mut taken = Chunk::init_chunk();
        std::mem::swap(self, &mut taken);
        let Chunk { code, lines, mut values } = taken;
        values.push(value);
        *self = Chunk { code, lines, values };
        (position % MAX_CONSTANTS) as u8
    }

    /// The instruction bytes written so far.
    pub fn code(&self) -> (code: &[u8])
        ensures
            code@ == self@.code,
            self@.in_lockstep(),
    {
        proof {
            use_type_invariant(self);
        }
        self.code.as_slice()
    }

    /// The line table: one entry for each byte of [`Chunk::code`].
    pub fn lines(&self) -> (lines: &[u8])
        ensures
            lines@ == self@.lines,
            lines@.len() == self@.code.len(),
    {
        proof {
            use_type_invariant(self);
        }
        self.lines.as_slice()
    }

    /// The constant pool.
    pub fn constants(&self) -> (constants: &[Value])
        ensures
            constants@ == self@.constants,
    {
        self.values.as_slice()
    }
}

/// Writes keep the tables in lockstep: after any run of writes to a chunk
/// whose tables are in lockstep they still are, what was there is untouched,
/// and the `k`-th write's byte and line sit at the same new position of the
/// code and of the line table. The constant pool is not affected.
pub proof fn lemma_writes_stay_in_lockstep(chunk: ChunkView, writes: Seq<(u8, u8)>)
    requires
        chunk.in_lockstep(),
    ensures
        chunk.write_all(writes).in_lockstep(),
        chunk.write_all(writes).code.len() == chunk.code.len() + writes.len(),
        chunk.write_all(writes).constants == chunk.constants,
        forall|i: int|
            0 <= i < chunk.code.len() ==> {
                &&& chunk.write_all(writes).code[i] == chunk.code[i]
                &&& chunk.write_all(writes).lines[i] == chunk.lines[i]
            },
        forall|k: int|
            0 <= k < writes.len() ==> {
                &&& chunk.write_all(writes).code[chunk.code.len() + k] == (#[trigger] writes[k]).0
                &&& chunk.write_all(writes).lines[chunk.code.len() + k] == writes[k].1
            },
    decreases writes.len(),
{
    if writes.len() > 0 {
        let init = writes.drop_last();
        lemma_writes_stay_in_lockstep(chunk, init);
        assert forall|k: int| 0 <= k < writes.len() implies {
            &&& chunk.write_all(writes).code[chunk.code.len() + k] == (#[trigger] writes[k]).0
            &&& chunk.write_all(writes).lines[chunk.code.len() + k] == writes[k].1
        } by {
            if k < init.len() {
                assert(init[k] == writes[k]);
            }
        }
    }
}

/// Adding constants appends them to the pool and touches nothing else.
pub proof fn lemma_add_constants(chunk: ChunkView, values: Seq<Value>)
    ensures
        chunk.add_constants(values).constants == chunk.constants + values,
        chunk.add_constants(values).code == chunk.code,
        chunk.add_constants(values).lines == chunk.lines,
    decreases values.len(),
{
    if values.len() > 0 {
        lemma_add_constants(chunk, values.drop_last());
    }
}

/// Constants are numbered in the order they are added: as long as the pool
/// stays within [`MAX_CONSTANTS`] entries, the `k`-th value added to a pool
/// of `n` entries is handed index `n + k` (so indices start at 0 on an empty
/// pool and grow by one with each call), and the pool holds that value at
/// that index right after the call and from then on.
pub proof fn lemma_constant_indices(chunk: ChunkView, values: Seq<Value>, k: int)
    requires
        chunk.constants.len() + values.len() <= MAX_CONSTANTS,
        0 <= k < values.len(),
    ensures
        chunk.add_constants(values.take(k)).next_index() == chunk.constants.len() + k,
        chunk.add_constants(values.take(k + 1)).constants[chunk.constants.len() + k] == values[k],
        chunk.add_constants(values).constants[chunk.constants.len() + k] == values[k],
{
    lemma_add_constants(chunk, values.take(k));
    lemma_add_constants(chunk, values.take(k + 1));
    lemma_add_constants(chunk, values);
}

} // verus!

//! Tasks: a code stack, a cursor-relative register stage and the shared
//! constant table.
use vstd::prelude::*;
use std::sync::Arc;

use crate::op::{
    decode_spec, encodable, encoded, i16_below, lemma_encoded_decodes, width, ConstRef, ForeignFunctions, Op,
    OpDecodeError,
};
use crate::runtime::ConstantTable;

verus! {

/// What a stage holds: its cells and the cursor that slot numbers are
/// relative to.
pub struct StageView {
    pub cells: Seq<u32>,
    pub cursor: usize,
}

impl StageView {
    /// An empty stage with the cursor at 0.
    pub open spec fn fresh() -> StageView {
        StageView { cells: Seq::empty(), cursor: 0 }
    }

    /// Slot `idx` (relative to the cursor) holds a value.
    pub open spec fn readable(self, idx: int) -> bool {
        self.cursor + idx < self.cells.len()
    }

    /// The value in slot `idx`.
    pub open spec fn read(self, idx: int) -> u32 {
        self.cells[self.cursor + idx]
    }

    /// Slot `idx` can be written (the stage grows up to it if needed).
    pub open spec fn writable(self, idx: int) -> bool {
        self.cursor + idx < usize::MAX
    }

    /// The stage after writing `v` to slot `idx`: slots between the old end
    /// and `idx` are filled with zeros.
    pub open spec fn write(self, idx: int, v: u32) -> StageView {
        let i = self.cursor + idx;
        let grown = if i < self.cells.len() {
            self.cells
        } else {
            self.cells + Seq::new((i + 1 - self.cells.len()) as nat, |_k: int| 0u32)
        };
        StageView { cells: grown.update(i, v), cursor: self.cursor }
    }

    /// Moving the cursor by `o` keeps it a valid, non-negative position.
    pub open spec fn can_offset(self, o: isize) -> bool {
        0 <= o + (self.cursor as isize) <= isize::MAX
    }

    /// The stage with its cursor moved by `o`.
    pub open spec fn offset(self, o: isize) -> StageView {
        StageView { cells: self.cells, cursor: (o + (self.cursor as isize)) as usize }
    }
}

/// An array of registers addressed relative to a movable cursor; writing
/// past its end grows it.
pub struct Stage {
    inner: Vec<u32>,
    cursor: usize,
}

impl View for Stage {
    type V = StageView;

    closed spec fn view(&self) -> StageView {
        StageView { cells: self.inner@, cursor: self.cursor }
    }
}

impl Stage {
    /// The cursor is always a valid non-negative `isize`.
    #[verifier::type_invariant]
    spec fn cursor_in_range(self) -> bool {
        self.cursor <= isize::MAX
    }

    /// An empty stage with room reserved for `prealloc` cells.
    pub fn new(prealloc: usize) -> (s: Stage)
        ensures
            s@ == StageView::fresh(),
    {
        Stage { inner: Vec::with_capacity(prealloc), cursor: 0 }
    }

    /// Moves the cursor by `offset`.
    pub fn offset(&mut self, offset: isize)
        requires
            old(self)@.can_offset(offset),
        ensures
            final(self)@ == old(self)@.offset(offset),
            final(self)@.cursor <= isize::MAX,
    {
        let nc = offset + (self.cursor as isize);
        self.cursor = nc as usize;
    }

    /// The position of the cursor.
    pub fn cursor_position(&self) -> (c: usize)
        ensures
            c == self@.cursor,
            c <= isize::MAX,
    {
        proof {
            use_type_invariant(self);
        }
        self.cursor
    }

    /// Whether slot `idx` holds a value.
    pub fn can_read(&self, idx: usize) -> (b: bool)
        ensures
            b == self@.readable(idx as int),
    {
        idx < self.inner.len() && self.cursor < self.inner.len() - idx
    }

    /// The value in slot `idx`.
    pub fn get(&self, idx: usize) -> (v: u32)
        requires
            self@.readable(idx as int),
        ensures
            v == self@.read(idx as int),
    {
        proof {
            assert(self.inner@.len() == self.inner.len());
        }
        self.inner[self.cursor + idx]
    }

    /// Writes `v` to slot `idx`, growing the stage with zeros if needed.
    pub fn set(&mut self, idx: usize, v: u32)
        requires
            old(self)@.writable(idx as int),
        ensures
            final(self)@ == old(self)@.write(idx as int, v),
    {
        proof {
            use_type_invariant(&*self);
        }
        let i = self.cursor + idx;
        let mut cells: Vec<u32> = Vec::new();
        std::mem::swap(&mut cells, &mut self.inner);
        let ghost old_cells = cells@;
        while cells.len() <= i
            invariant
                i < usize::MAX,
                old_cells.len() <= cells@.len(),
                cells@.len() <= old_cells.len() || cells@.len() <= i + 1,
                cells@.subrange(0, old_cells.len() as int) == old_cells,
                forall|k: int| old_cells.len() <= k < cells@.len() ==> cells@[k] == 0u32,
            decreases i + 1 - cells.len(),
        {
            cells.push(0);
        }
        let ghost grown = cells@;
        cells.set(i, v);
        self.inner = cells;
        proof {
            let w = old(self)@.write(idx as int, v);
            let g = if i < old_cells.len() {
                old_cells
            } else {
                old_cells + Seq::new((i + 1 - old_cells.len()) as nat, |_k: int| 0u32)
            };
            assert(grown =~= g);
            assert(self.inner@ =~= w.cells);
        }
    }
}

/// A stack of code bytes; the instruction on top is the one at its end.
#[derive(Clone)]
pub struct Code {
    code: Vec<u8>,
}

impl View for Code {
    type V = Seq<u8>;

    closed spec fn view(&self) -> Seq<u8> {
        self.code@
    }
}

/// An instruction is on top of `code` and decodes.
pub open spec fn decodes(code: Seq<u8>) -> bool {
    code.len() > 0 && decode_spec(code) is Ok
}

/// The code left once the instruction on top of `code` is taken off.
pub open spec fn below_top(code: Seq<u8>) -> Seq<u8> {
    code.subrange(0, code.len() - width(decode_spec(code)->Ok_0))
}

/// A decoded instruction never claims more bytes than the code holds.
pub proof fn lemma_decoded_fits(code: Seq<u8>)
    requires
        decodes(code),
    ensures
        width(decode_spec(code)->Ok_0) <= code.len(),
{
}

impl Code {
    pub fn new(c: Vec<u8>) -> (code: Code)
        ensures
            code@ == c@,
    {
        Code { code: c }
    }

    /// Takes the instruction on top of the stack off it, or gives `None`
    /// once the stack is empty.
    pub fn next(&mut self) -> (op: Option<Op>)
        requires
            old(self)@.len() > 0 ==> decode_spec(old(self)@) is Ok,
        ensures
            old(self)@.len() == 0 ==> op is None && final(self)@ == old(self)@,
            old(self)@.len() > 0 ==> op == Some(decode_spec(old(self)@)->Ok_0)
                && final(self)@ == below_top(old(self)@),
    {
        if self.code.is_empty() {
            return None;
        }
        let r = Op::decode(self.code.as_slice());
        match r {
            Ok(op) => {
                proof {
                    lemma_decoded_fits(self.code@);
                }
                let new_length = self.code.len() - op.byte_width();
                self.code.truncate(new_length);
                Some(op)
            },
            Err(_) => {
                proof {
                    assert(false);
                }
                None
            },
        }
    }
}

/// How a task's step went.
pub enum TaskStatus {
    Running,
    Dead,
    Yielded,
    Spawning(Task),
}

/// A single unit of concurrent execution.
pub struct Task {
    pub constants: Arc<ConstantTable>,
    pub stage: Stage,
    pub code: Code,
}

/// The bytes of the instruction that moves the cursor back by `offset`:
/// `Cursor(-offset)` with the offset cut to 16 bits, laid out as the code
/// stack holds it (argument below the opcode).
pub open spec fn cursor_restore(offset: usize) -> Seq<u8> {
    let v = (-(offset as isize)) as i16;
    let u = v as u16;
    seq![u as u8, (u >> 8u16) as u8, 0x23u8]
}

/// A temporary move of the cursor by `offset` is possible.
pub open spec fn can_offset_temporarily(stage: StageView, offset: usize) -> bool {
    offset == 0 || ((offset as isize) != isize::MIN && stage.can_offset(offset as isize))
}

/// The stage after a temporary move of the cursor by `offset`.
pub open spec fn offset_stage(stage: StageView, offset: usize) -> StageView {
    if offset == 0 {
        stage
    } else {
        stage.offset(offset as isize)
    }
}

/// The code after a temporary move of the cursor by `offset`: the
/// instruction that undoes the move is pushed.
pub open spec fn offset_code(code: Seq<u8>, offset: usize) -> Seq<u8> {
    if offset == 0 {
        code
    } else {
        code + cursor_restore(offset)
    }
}

impl Task {
    /// The task can take a step without panicking: either its code is empty
    /// or the instruction on top decodes and can run.
    pub open spec fn steppable(&self) -> bool {
        self.code@.len() > 0 ==> {
            &&& decode_spec(self.code@) is Ok
            &&& decode_spec(self.code@)->Ok_0.runnable(*self.constants, self.stage@)
        }
    }

    /// Relates a task to a possible outcome of one step: with no code left
    /// the step is `Dead` and changes nothing; otherwise it is what the
    /// instruction on top does, run on the task with that instruction
    /// removed from its code.
    pub open spec fn stepped_to<F: ForeignFunctions>(self, ff: &F, after: Task, status: TaskStatus) -> bool {
        if self.code@.len() == 0 {
            &&& status is Dead
            &&& after.code@ == self.code@
            &&& after.stage@ == self.stage@
            &&& after.constants == self.constants
        } else {
            decode_spec(self.code@)->Ok_0.runs_to(
                ff,
                self.constants,
                self.stage@,
                below_top(self.code@),
                after,
                status,
            )
        }
    }

    pub fn new(code: Code, ct: Arc<ConstantTable>) -> (t: Task)
        ensures
            t.code@ == code@,
            t.stage@ == StageView::fresh(),
            t.constants == ct,
    {
        Task { constants: ct, code: code, stage: Stage::new(64) }
    }

    /// Whether `step` may be called.
    pub fn can_step(&self) -> (b: bool)
        ensures
            b == self.steppable(),
    {
        if self.code.code.is_empty() {
            return true;
        }
        match Op::decode(self.code.code.as_slice()) {
            Ok(op) => op.can_execute(self),
            Err(_) => false,
        }
    }

    /// Runs the instruction on top of the code stack; `Dead` once the code
    /// is used up.
    pub fn step<F: ForeignFunctions>(&mut self, ff: &F) -> (status: TaskStatus)
        requires
            old(self).steppable(),
        ensures
            old(self).stepped_to(ff, *final(self), status),
    {
        match self.code.next() {
            Some(op) => op.execute(self, ff),
            None => TaskStatus::Dead,
        }
    }

    /// Pushes the code chunk at `c` on top of the code stack.
    pub fn expand(&mut self, c: ConstRef)
        requires
            old(self).constants.has_chunk_at(c as int),
        ensures
            final(self).code@ == old(self).code@ + old(self).constants.chunk(c as int),
            final(self).stage@ == old(self).stage@,
            final(self).constants == old(self).constants,
    {
        let chunk = self.constants.get_chunk(c);
        let ghost start = self.code@;
        let n = chunk.len();
        let mut i: usize = 0;
        while i < n
            invariant
                n == chunk@.len(),
                i <= n,
                self.code@ == start + chunk@.take(i as int),
                self.constants == old(self).constants,
                self.stage@ == old(self).stage@,
            decreases n - i,
        {
            self.code.code.push(chunk[i]);
            proof {
                assert(chunk@.take(i + 1) =~= chunk@.take(i as int).push(chunk@[i as int]));
            }
            i = i + 1;
        }
        proof {
            assert(chunk@.take(n as int) =~= chunk@);
        }
    }

    /// Moves the cursor by `offset` and pushes the instruction that moves
    /// it back, so the move lasts until the code pushed after it is done.
    pub fn temporary_offset(&mut self, offset: usize)
        requires
            can_offset_temporarily(old(self).stage@, offset),
        ensures
            final(self).stage@ == offset_stage(old(self).stage@, offset),
            final(self).code@ == offset_code(old(self).code@, offset),
            final(self).constants == old(self).constants,
    {
        if offset == 0 {
            return;
        }
        let neg: isize = -(offset as isize);
        let v: i16 = neg as i16;
        let u: u16 = v as u16;
        self.code.code.push(u as u8);
        self.code.code.push((u >> 8u16) as u8);
        self.code.code.push(0x23);
        self.stage.offset(offset as isize);
    }
}

/// Reading a slot gives back what was last written to it, and writing one
/// slot leaves every other slot that held a value as it was.
pub proof fn lemma_read_after_write(s: StageView, idx: int, v: u32, other: int)
    requires
        0 <= idx,
        0 <= other,
        s.writable(idx),
    ensures
        s.write(idx, v).readable(idx),
        s.write(idx, v).read(idx) == v,
        s.write(idx, v).cursor == s.cursor,
        other != idx && s.readable(other) ==> s.write(idx, v).readable(other) && s.write(idx, v).read(
            other,
        ) == s.read(other),
{
}

/// The stage instructions do what the opcode table says: `SWAP X Y`
/// exchanges the two slots, `MOVE X Y` copies slot X into slot Y, and
/// `SET X V` puts V into slot X; no other slot that held a value changes.
pub proof fn lemma_stage_instructions(s: StageView, x: int, y: int, v: u32, other: int)
    requires
        0 <= x,
        0 <= y,
        0 <= other,
        s.readable(x),
        s.readable(y),
        s.writable(x),
        s.writable(y),
    ensures
        ({
            let swapped = s.write(x, s.read(y)).write(y, s.read(x));
            &&& swapped.read(x) == s.read(y)
            &&& swapped.read(y) == s.read(x)
            &&& other != x && other != y && s.readable(other) ==> swapped.read(other) == s.read(other)
        }),
        ({
            let moved = s.write(y, s.read(x));
            &&& moved.read(y) == s.read(x)
            &&& moved.read(x) == s.read(x)
        }),
        s.write(x, v).read(x) == v,
{
    lemma_read_after_write(s, x, s.read(y), other);
    lemma_read_after_write(s.write(x, s.read(y)), y, s.read(x), other);
    lemma_read_after_write(s.write(x, s.read(y)), y, s.read(x), x);
    lemma_read_after_write(s, y, s.read(x), x);
}

proof fn lemma_restore_bytes(x: usize)
    requires
        1 <= x <= 0x8000,
    ensures
        ({
            let b = cursor_restore(x);
            &&& b.len() == 3
            &&& b[2] == 0x23u8
            &&& i16_below(b.subrange(0, 2), 2) == -(x as int)
        }),
{
    let v = (-(x as isize)) as i16;
    assert(v == -(x as int));
    let u = v as u16;
    let lo = u as u8;
    let hi = (u >> 8u16) as u8;
    assert(lo as int + 256 * (hi as int) == u as int) by (bit_vector)
        requires
            lo == u as u8,
            hi == (u >> 8u16) as u8,
    ;
    assert(v < 0 ==> u as int == v as int + 0x10000) by (bit_vector)
        requires
            u == v as u16,
    ;
    let b = cursor_restore(x);
    assert(b.subrange(0, 2)[0] == lo);
    assert(b.subrange(0, 2)[1] == hi);
}

/// A temporary cursor move is undone by the instruction it pushes: once
/// that instruction has run, the task's cursor and code are what they were
/// before the move. Holds for moves of up to 32768 slots (the pushed
/// instruction keeps 16 bits of the offset).
pub proof fn lemma_temporary_offset_undone<F: ForeignFunctions>(
    ff: &F,
    constants: Arc<ConstantTable>,
    stage: StageView,
    code: Seq<u8>,
    x: usize,
)
    requires
        1 <= x <= 0x8000,
        stage.cursor + x <= isize::MAX,
    ensures
        can_offset_temporarily(stage, x),
        decodes(offset_code(code, x)),
        decode_spec(offset_code(code, x)) == Ok::<Op, OpDecodeError>(Op::Cursor(-(x as int) as isize)),
        below_top(offset_code(code, x)) == code,
        Op::Cursor(-(x as int) as isize).runnable(*constants, offset_stage(stage, x)),
        forall|after: Task, status: TaskStatus|
            #[trigger] Op::Cursor(-(x as int) as isize).runs_to(ff, constants, offset_stage(stage, x), code, after, status)
                ==> after.stage@ == stage && after.code@ == code,
{
    lemma_restore_bytes(x);
    let c1 = offset_code(code, x);
    let b = cursor_restore(x);
    assert(c1 == code + b);
    assert(c1.subrange(0, code.len() as int) =~= code);
    assert(b.subrange(0, 2) =~= seq![b[0], b[1]]);
    assert(i16_below(c1, c1.len() - 1) == i16_below(b.subrange(0, 2), 2));
    let s1 = offset_stage(stage, x);
    assert(s1.cursor == stage.cursor + x);
    assert(s1.offset(-(x as int) as isize) == stage);
}

proof fn lemma_restore_is_encoded_cursor(x: usize)
    requires
        1 <= x <= 0x8000,
    ensures
        cursor_restore(x) == encoded(Op::Cursor(-(x as int) as isize)),
{
    lemma_restore_bytes(x);
    let v = (-(x as isize)) as i16;
    let u = v as u16;
    let lo = u as u8;
    let hi = (u >> 8u16) as u8;
    assert(lo as int + 256 * (hi as int) == u as int) by (bit_vector)
        requires
            lo == u as u8,
            hi == (u >> 8u16) as u8,
    ;
    assert(v < 0 ==> u as int == v as int + 0x10000) by (bit_vector)
        requires
            u == v as u16,
    ;
    let e = encoded(Op::Cursor(-(x as int) as isize));
    let w = -(x as int) + 0x10000;
    assert(u as int == w);
    assert(e == seq![(w % 256) as u8, (w / 256 % 256) as u8].push(0x23u8));
    assert(e =~= cursor_restore(x));
}

/// `CALLF X F` hands the foreign function at F the task with its cursor
/// moved X slots on (cells unchanged) and the encoded `CURSOR -X` pushed
/// on its code; the task and status that come back are the step's outcome.
/// `CALLV X V` hands over the same, to the function whose reference is in
/// slot V, and always goes on (`Running`).
pub proof fn lemma_foreign_call_gets_moved_task<F: ForeignFunctions>(
    ff: &F,
    constants: Arc<ConstantTable>,
    stage: StageView,
    code: Seq<u8>,
    x: usize,
    f: ConstRef,
    v: usize,
    after: Task,
    status: TaskStatus,
)
    requires
        1 <= x <= 0x8000,
        stage.cursor + x <= isize::MAX,
    ensures
        ({
            let moved = StageView { cells: stage.cells, cursor: (stage.cursor + x) as usize };
            let pushed = code + encoded(Op::Cursor(-(x as int) as isize));
            &&& Op::Callf(x, f).runs_to(ff, constants, stage, code, after, status) ==> ff.call_gives(
                f,
                constants,
                moved,
                pushed,
                after,
                status,
            )
            &&& Op::Callv(x, v).runs_to(ff, constants, stage, code, after, status) ==> status is Running
                && exists|s: TaskStatus| #[trigger]
                    ff.call_gives(stage.read(v as int) as usize, constants, moved, pushed, after, s)
        }),
{
    lemma_restore_is_encoded_cursor(x);
    let moved = StageView { cells: stage.cells, cursor: (stage.cursor + x) as usize };
    assert(offset_stage(stage, x) == moved);
    assert(offset_code(code, x) == code + encoded(Op::Cursor(-(x as int) as isize)));
}

/// Taking an instruction off the code stack removes exactly its encoded
/// bytes: whatever lies below an encodable instruction is what is left.
pub proof fn lemma_next_leaves_what_was_below(op: Op, below: Seq<u8>)
    requires
        encodable(op),
    ensures
        decodes(below + encoded(op)),
        decode_spec(below + encoded(op))->Ok_0 == op,
        below_top(below + encoded(op)) == below,
{
    lemma_encoded_decodes(op, below);
    assert((below + encoded(op)).subrange(0, below.len() as int) =~= below);
}

/// Writing a slot needs only that the slot can be written, not that it
/// already holds a value: `MAPTO X Y F`, `MOVE X Y` and `SET Y V` can run
/// whenever slot X holds a value and slot Y can be written, even past the
/// end of the stage.
pub proof fn lemma_writes_grow_the_stage(
    ct: ConstantTable,
    stage: StageView,
    x: usize,
    y: usize,
    f: ConstRef,
    v: u32,
)
    requires
        stage.readable(x as int),
        stage.cursor + y < usize::MAX,
    ensures
        Op::Mapto(x, y, f).runnable(ct, stage),
        Op::Move(x, y).runnable(ct, stage),
        Op::SetSlot(y, v).runnable(ct, stage),
{
}

/// What the stage and branch instructions do, by their results: `SWAP`
/// exchanges two slots, `MOVE` copies one into another, `SET` stores its
/// value, and all three leave other slots, the cursor and the code alone;
/// and `IF X T E` does what `CALL 0 T` does when
/// slot X is non-zero and what `CALL 0 E` does when it is zero.
pub proof fn lemma_instruction_effects<F: ForeignFunctions>(
    ff: &F,
    constants: Arc<ConstantTable>,
    stage: StageView,
    code: Seq<u8>,
    after: Task,
    status: TaskStatus,
    x: usize,
    y: usize,
    other: usize,
    t: ConstRef,
    e: ConstRef,
    v: u32,
)
    requires
        stage.readable(x as int),
        stage.readable(y as int),
        stage.writable(x as int),
        stage.writable(y as int),
    ensures
        Op::Swap(x, y).runs_to(ff, constants, stage, code, after, status) ==> {
            &&& after.stage@.read(x as int) == stage.read(y as int)
            &&& after.stage@.read(y as int) == stage.read(x as int)
            &&& other != x && other != y && stage.readable(other as int) ==> after.stage@.read(other as int)
                == stage.read(other as int)
            &&& after.stage@.cursor == stage.cursor && after.code@ == code && status is Running
        },
        Op::Move(x, y).runs_to(ff, constants, stage, code, after, status) ==> {
            &&& after.stage@.read(y as int) == stage.read(x as int)
            &&& after.stage@.read(x as int) == stage.read(x as int)
            &&& other != y && stage.readable(other as int) ==> after.stage@.read(other as int) == stage.read(
                other as int,
            )
            &&& after.stage@.cursor == stage.cursor && after.code@ == code && status is Running
        },
        Op::SetSlot(x, v).runs_to(ff, constants, stage, code, after, status) ==> {
            &&& after.stage@.read(x as int) == v
            &&& other != x && stage.readable(other as int) ==> after.stage@.read(other as int) == stage.read(
                other as int,
            )
            &&& after.stage@.cursor == stage.cursor && after.code@ == code && status is Running
        },
        stage.read(x as int) != 0 ==> Op::If(x, t, e).runs_to(ff, constants, stage, code, after, status)
            == Op::Call(0, t).runs_to(ff, constants, stage, code, after, status),
        stage.read(x as int) == 0 ==> Op::If(x, t, e).runs_to(ff, constants, stage, code, after, status)
            == Op::Call(0, e).runs_to(ff, constants, stage, code, after, status),
{
    lemma_stage_instructions(stage, x as int, y as int, v, other as int);
    lemma_read_after_write(stage, y as int, stage.read(x as int), other as int);
    lemma_read_after_write(stage, x as int, v, other as int);
    lemma_read_after_write(stage.write(x as int, stage.read(y as int)), y as int, stage.read(x as int), other as int);
    lemma_read_after_write(stage, x as int, stage.read(y as int), other as int);
}

} // verus!

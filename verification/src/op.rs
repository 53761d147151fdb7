//! Instructions: their byte layout, how they are decoded from the top of a
//! code stack, and what executing one does to a task.
use vstd::prelude::*;
use std::sync::Arc;

use crate::runtime::{share_table, ConstantTable};
use crate::task::{
    can_offset_temporarily, offset_code, offset_stage, StageView, Task, TaskStatus,
};

verus! {

/// Index into the byte array of a constant table.
pub type ConstRef = usize;

/// Why the bytes on top of a code stack are not an instruction.
#[derive(Debug, Clone, PartialEq, Eq)]
pub enum OpDecodeError {
    /// The opcode (first field) is not known; the second field is its position.
    UnknownOp(u8, usize),
    /// The opcode (first field) needs an argument that is not there; the
    /// second field is the position the decoder had reached.
    NoArgument(u8, usize),
}

/// An instruction of the machine (see the opcode table in the docs).
#[derive(Copy, Clone, Debug, PartialEq, Eq)]
pub enum Op {
    Nop,
    Yield,
    Spawn(ConstRef),
    If(usize, ConstRef, ConstRef),
    Call(usize, ConstRef),
    Callf(usize, ConstRef),
    MapSlot(usize, ConstRef),
    Mapto(usize, usize, ConstRef),
    Binop(usize, ConstRef),
    Callv(usize, usize),
    Swap(usize, usize),
    Move(usize, usize),
    SetSlot(usize, u32),
    Cursor(isize),
}

/// The little-endian `u32` made of four bytes, least significant first.
pub open spec fn le_u32(b0: u8, b1: u8, b2: u8, b3: u8) -> int {
    b0 + 256 * b1 + 65536 * b2 + 16777216 * b3
}

/// The `u32` stored in the four bytes just below position `end`.
pub open spec fn u32_below(code: Seq<u8>, end: int) -> int {
    le_u32(code[end - 4], code[end - 3], code[end - 2], code[end - 1])
}

/// The little-endian two's-complement `i16` stored in the two bytes just
/// below position `end`.
pub open spec fn i16_below(code: Seq<u8>, end: int) -> int {
    let u = code[end - 2] + 256 * code[end - 1];
    if u >= 0x8000 {
        u - 0x10000
    } else {
        u
    }
}

/// Argument layout `XX FF FF FF FF` read downwards from the opcode at `i`:
/// a slot byte, then a constant reference.
pub open spec fn slot_and_ref(code: Seq<u8>, op: u8, i: int) -> Result<(usize, usize), OpDecodeError> {
    if i < 1 {
        Err(OpDecodeError::NoArgument(op, i as usize))
    } else if i - 1 < 4 {
        Err(OpDecodeError::NoArgument(op, (i - 1) as usize))
    } else {
        Ok((code[i - 1] as usize, u32_below(code, i - 1) as usize))
    }
}

/// Argument layout `XX YY` read downwards from the opcode at `i`: two bytes.
pub open spec fn two_bytes(code: Seq<u8>, op: u8, i: int) -> Result<(usize, usize), OpDecodeError> {
    if i < 1 {
        Err(OpDecodeError::NoArgument(op, i as usize))
    } else if i - 1 < 1 {
        Err(OpDecodeError::NoArgument(op, (i - 1) as usize))
    } else {
        Ok((code[i - 1] as usize, code[i - 2] as usize))
    }
}

/// What decoding the instruction on top of `code` gives. The opcode is the
/// last byte; its arguments are read downwards from it, each `u32` and `i16`
/// stored little-endian.
pub open spec fn decode_spec(code: Seq<u8>) -> Result<Op, OpDecodeError> {
    let i = code.len() - 1;
    let op = code[i];
    if op == 0x00 {
        Ok(Op::Nop)
    } else if op == 0x01 {
        Ok(Op::Yield)
    } else if op == 0x02 {
        if i < 4 {
            Err(OpDecodeError::NoArgument(op, i as usize))
        } else {
            Ok(Op::Spawn(u32_below(code, i) as usize))
        }
    } else if op == 0x03 {
        match slot_and_ref(code, op, i) {
            Err(e) => Err(e),
            Ok((x, t)) => if i - 5 < 4 {
                Err(OpDecodeError::NoArgument(op, (i - 5) as usize))
            } else {
                Ok(Op::If(x, t, u32_below(code, i - 5) as usize))
            },
        }
    } else if op == 0x04 || op == 0x05 || op == 0x06 || op == 0x08 {
        match slot_and_ref(code, op, i) {
            Err(e) => Err(e),
            Ok((x, f)) => Ok(
                if op == 0x04 {
                    Op::Call(x, f)
                } else if op == 0x05 {
                    Op::Callf(x, f)
                } else if op == 0x06 {
                    Op::MapSlot(x, f)
                } else {
                    Op::Binop(x, f)
                },
            ),
        }
    } else if op == 0x07 {
        match two_bytes(code, op, i) {
            Err(e) => Err(e),
            Ok((x, y)) => if i - 2 < 4 {
                Err(OpDecodeError::NoArgument(op, (i - 2) as usize))
            } else {
                Ok(Op::Mapto(x, y, u32_below(code, i - 2) as usize))
            },
        }
    } else if op == 0x09 || op == 0x20 || op == 0x21 || op == 0x22 {
        match two_bytes(code, op, i) {
            Err(e) => Err(e),
            Ok((x, y)) => Ok(
                if op == 0x09 {
                    Op::Callv(x, y)
                } else if op == 0x20 {
                    Op::Swap(x, y)
                } else if op == 0x21 {
                    Op::Move(x, y)
                } else {
                    Op::SetSlot(x, y as u32)
                },
            ),
        }
    } else if op == 0x23 {
        if i < 2 {
            Err(OpDecodeError::NoArgument(op, i as usize))
        } else {
            Ok(Op::Cursor(i16_below(code, i) as isize))
        }
    } else {
        Err(OpDecodeError::UnknownOp(op, i as usize))
    }
}

/// Number of bytes an instruction takes in its encoded form.
pub open spec fn width(op: Op) -> usize {
    match op {
        Op::Nop | Op::Yield => 1,
        Op::Callv(..) | Op::Swap(..) | Op::Move(..) | Op::SetSlot(..) | Op::Cursor(..) => 3,
        Op::Spawn(..) => 5,
        Op::Call(..) | Op::Callf(..) | Op::MapSlot(..) | Op::Binop(..) => 6,
        Op::Mapto(..) => 7,
        Op::If(..) => 10,
    }
}

/// A reader that walks down from the opcode of an instruction.
struct OpCursor<'a> {
    index: usize,
    code: &'a [u8],
}

impl<'a> OpCursor<'a> {
    fn next_u32(&mut self, op: u8) -> (r: Result<usize, OpDecodeError>)
        requires
            old(self).index <= old(self).code@.len(),
        ensures
            final(self).code == old(self).code,
            old(self).index < 4 ==> r == Err::<usize, OpDecodeError>(OpDecodeError::NoArgument(op, old(self).index)) && final(self).index == old(self).index,
            old(self).index >= 4 ==> final(self).index == old(self).index - 4
                && r == Ok::<usize, OpDecodeError>(u32_below(old(self).code@, old(self).index as int) as usize),
    {
        if self.index < 4 {
            Err(OpDecodeError::NoArgument(op, self.index))
        } else {
            self.index = self.index - 4;
            let i = self.index;
            let v: u32 = self.code[i] as u32 + (self.code[i + 1] as u32) * 256 + (self.code[i + 2] as u32) * 65536
                + (self.code[i + 3] as u32) * 16777216;
            Ok(v as usize)
        }
    }

    fn next_u8(&mut self, op: u8) -> (r: Result<usize, OpDecodeError>)
        requires
            old(self).index <= old(self).code@.len(),
        ensures
            final(self).code == old(self).code,
            old(self).index == 0 ==> r == Err::<usize, OpDecodeError>(OpDecodeError::NoArgument(op, 0)) && final(self).index == 0,
            old(self).index > 0 ==> final(self).index == old(self).index - 1
                && r == Ok::<usize, OpDecodeError>(old(self).code@[old(self).index - 1] as usize),
    {
        if self.index == 0 {
            Err(OpDecodeError::NoArgument(op, self.index))
        } else {
            self.index = self.index - 1;
            Ok(self.code[self.index] as usize)
        }
    }

    fn next_i16(&mut self, op: u8) -> (r: Result<isize, OpDecodeError>)
        requires
            old(self).index <= old(self).code@.len(),
        ensures
            final(self).code == old(self).code,
            old(self).index < 2 ==> r == Err::<isize, OpDecodeError>(OpDecodeError::NoArgument(op, old(self).index)) && final(self).index == old(self).index,
            old(self).index >= 2 ==> final(self).index == old(self).index - 2
                && r == Ok::<isize, OpDecodeError>(i16_below(old(self).code@, old(self).index as int) as isize),
    {
        if self.index < 2 {
            Err(OpDecodeError::NoArgument(op, self.index))
        } else {
            self.index = self.index - 2;
            let i = self.index;
            let u: u32 = self.code[i] as u32 + (self.code[i + 1] as u32) * 256;
            let v: i32 = if u >= 0x8000 { u as i32 - 0x10000 } else { u as i32 };
            Ok(v as isize)
        }
    }
}

impl Op {
    /// Decodes the instruction on top of `code` (its last byte is the opcode).
    pub fn decode(code: &[u8]) -> (r: Result<Op, OpDecodeError>)
        requires
            code@.len() >= 1,
        ensures
            r == decode_spec(code@),
    {
        let mut cursor = OpCursor { index: code.len() - 1, code: code };
        let op = code[code.len() - 1];
        if op == 0x00 {
            Ok(Op::Nop)
        } else if op == 0x01 {
            Ok(Op::Yield)
        } else if op == 0x02 {
            match cursor.next_u32(op) {
                Err(e) => Err(e),
                Ok(val) => Ok(Op::Spawn(val)),
            }
        } else if op == 0x03 {
            let x = match cursor.next_u8(op) { Err(e) => { return Err(e); }, Ok(v) => v };
            let t = match cursor.next_u32(op) { Err(e) => { return Err(e); }, Ok(v) => v };
            let e = match cursor.next_u32(op) { Err(e) => { return Err(e); }, Ok(v) => v };
            Ok(Op::If(x, t, e))
        } else if op == 0x04 || op == 0x05 || op == 0x06 || op == 0x08 {
            let x = match cursor.next_u8(op) { Err(e) => { return Err(e); }, Ok(v) => v };
            let f = match cursor.next_u32(op) { Err(e) => { return Err(e); }, Ok(v) => v };
            if op == 0x04 {
                Ok(Op::Call(x, f))
            } else if op == 0x05 {
                Ok(Op::Callf(x, f))
            } else if op == 0x06 {
                Ok(Op::MapSlot(x, f))
            } else {
                Ok(Op::Binop(x, f))
            }
        } else if op == 0x07 {
            let x = match cursor.next_u8(op) { Err(e) => { return Err(e); }, Ok(v) => v };
            let y = match cursor.next_u8(op) { Err(e) => { return Err(e); }, Ok(v) => v };
            let f = match cursor.next_u32(op) { Err(e) => { return Err(e); }, Ok(v) => v };
            Ok(Op::Mapto(x, y, f))
        } else if op == 0x09 || op == 0x20 || op == 0x21 || op == 0x22 {
            let x = match cursor.next_u8(op) { Err(e) => { return Err(e); }, Ok(v) => v };
            let y = match cursor.next_u8(op) { Err(e) => { return Err(e); }, Ok(v) => v };
            if op == 0x09 {
                Ok(Op::Callv(x, y))
            } else if op == 0x20 {
                Ok(Op::Swap(x, y))
            } else if op == 0x21 {
                Ok(Op::Move(x, y))
            } else {
                Ok(Op::SetSlot(x, y as u32))
            }
        } else if op == 0x23 {
            match cursor.next_i16(op) {
                Err(e) => Err(e),
                Ok(o) => Ok(Op::Cursor(o)),
            }
        } else {
            Err(OpDecodeError::UnknownOp(op, code.len() - 1))
        }
    }

    /// How many bytes this instruction takes in its encoded form.
    pub fn byte_width(&self) -> (w: usize)
        ensures
            w == width(*self),
    {
        match *self {
            Op::Nop | Op::Yield => 1,
            Op::Callv(..) | Op::Swap(..) | Op::Move(..) | Op::SetSlot(..) | Op::Cursor(..) => 3,
            Op::Spawn(..) => 5,
            Op::Call(..) | Op::Callf(..) | Op::MapSlot(..) | Op::Binop(..) => 6,
            Op::Mapto(..) => 7,
            Op::If(..) => 10,
        }
    }
}

/// The foreign functions that instructions call by constant reference.
/// A program's host supplies them. Each method comes with a relation that
/// says which outcomes the function at `f` may have for what it is handed;
/// a host that specifies nothing allows every outcome.
pub trait ForeignFunctions {
    /// The function at `f`, handed a task with these constants, stage and
    /// code, may leave the task as `after` and return `status`.
    open spec fn call_gives(
        &self,
        f: ConstRef,
        constants: Arc<ConstantTable>,
        stage: StageView,
        code: Seq<u8>,
        after: Task,
        status: TaskStatus,
    ) -> bool {
        true
    }

    /// The map function at `f` may give `result` for `value`.
    open spec fn map_gives(&self, f: ConstRef, value: u32, constants: Arc<ConstantTable>, result: u32) -> bool {
        true
    }

    /// The binary function at `f` may give `result` for `a` and `b`.
    open spec fn binop_gives(&self, f: ConstRef, a: u32, b: u32, constants: Arc<ConstantTable>, result: u32) -> bool {
        true
    }

    /// Runs the foreign function at `f` on a task (`CALLF`, `CALLV`).
    fn call(&self, f: ConstRef, task: &mut Task) -> (status: TaskStatus)
        ensures
            self.call_gives(f, old(task).constants, old(task).stage@, old(task).code@, *final(task), status),
    ;

    /// Applies the foreign map function at `f` to a value (`MAP`, `MAPTO`).
    fn map(&self, f: ConstRef, value: u32, constants: Arc<ConstantTable>) -> (result: u32)
        ensures
            self.map_gives(f, value, constants, result),
    ;

    /// Applies the foreign binary function at `f` to two values (`BINOP`).
    fn binop(&self, f: ConstRef, a: u32, b: u32, constants: Arc<ConstantTable>) -> (result: u32)
        ensures
            self.binop_gives(f, a, b, constants, result),
    ;
}

impl Op {
    /// Running this instruction on a task with these constants and stage
    /// does not panic: every slot it reads holds a value, every cursor move
    /// stays valid, and every chunk it pushes exists.
    pub open spec fn runnable(self, ct: ConstantTable, stage: StageView) -> bool {
        match self {
            Op::Nop | Op::Yield => true,
            Op::Spawn(f) => ct.has_chunk_at(f as int),
            Op::If(x, t, e) => stage.readable(x as int) && ct.has_chunk_at(
                if stage.read(x as int) != 0 { t as int } else { e as int },
            ),
            Op::Call(x, f) => can_offset_temporarily(stage, x) && ct.has_chunk_at(f as int),
            Op::Callf(x, _) => can_offset_temporarily(stage, x),
            Op::MapSlot(x, _) => stage.readable(x as int) && stage.writable(x as int),
            Op::Mapto(x, y, _) => stage.readable(x as int) && stage.writable(y as int),
            Op::Binop(x, _) => x < usize::MAX && stage.readable(x as int) && stage.readable(x + 1)
                && stage.writable(x as int),
            Op::Callv(x, v) => stage.readable(v as int) && can_offset_temporarily(stage, x),
            Op::Swap(x, y) => stage.readable(x as int) && stage.readable(y as int) && stage.writable(
                x as int,
            ) && stage.writable(y as int),
            Op::Move(x, y) => stage.readable(x as int) && stage.writable(y as int),
            Op::SetSlot(x, _) => stage.writable(x as int),
            Op::Cursor(o) => stage.can_offset(o),
        }
    }

    /// What running this instruction does to a task that held `constants`,
    /// `stage` and `code` (the code with this instruction already taken
    /// off), given the task `after` it and the status it returned. Foreign
    /// functions are handed what the instruction names, and their outcome
    /// is one that `ff` allows.
    pub open spec fn runs_to<F: ForeignFunctions>(
        self,
        ff: &F,
        constants: Arc<ConstantTable>,
        stage: StageView,
        code: Seq<u8>,
        after: Task,
        status: TaskStatus,
    ) -> bool {
        let ct = *constants;
        let keeps = after.constants == constants;
        match self {
            Op::Nop => keeps && after.stage@ == stage && after.code@ == code && status is Running,
            Op::Yield => keeps && after.stage@ == stage && after.code@ == code && status is Yielded,
            Op::Spawn(f) => {
                &&& keeps && after.stage@ == stage && after.code@ == code
                &&& status matches TaskStatus::Spawning(t)
                &&& t.code@ == ct.chunk(f as int)
                &&& t.stage@ == StageView::fresh()
                &&& t.constants == constants
            },
            Op::If(x, t, e) => {
                let b = if stage.read(x as int) != 0 { t } else { e };
                keeps && after.stage@ == stage && after.code@ == code + ct.chunk(b as int) && status is Running
            },
            Op::Call(x, f) => {
                &&& keeps
                &&& after.stage@ == offset_stage(stage, x)
                &&& after.code@ == offset_code(code, x) + ct.chunk(f as int)
                &&& status is Running
            },
            Op::Callf(x, f) => ff.call_gives(f, constants, offset_stage(stage, x), offset_code(code, x), after, status),
            Op::MapSlot(x, f) => keeps && after.code@ == code && status is Running
                && exists|v: u32| #[trigger] ff.map_gives(f, stage.read(x as int), constants, v)
                    && after.stage@ == stage.write(x as int, v),
            Op::Mapto(x, y, f) => keeps && after.code@ == code && status is Running
                && exists|v: u32| #[trigger] ff.map_gives(f, stage.read(x as int), constants, v)
                    && after.stage@ == stage.write(y as int, v),
            Op::Binop(x, f) => keeps && after.code@ == code && status is Running
                && exists|v: u32| #[trigger] ff.binop_gives(f, stage.read(x as int), stage.read(x + 1), constants, v)
                    && after.stage@ == stage.write(x as int, v),
            Op::Callv(x, v) => status is Running && exists|s: TaskStatus| #[trigger] ff.call_gives(
                stage.read(v as int) as usize,
                constants,
                offset_stage(stage, x),
                offset_code(code, x),
                after,
                s,
            ),
            Op::Swap(x, y) => {
                &&& keeps && after.code@ == code && status is Running
                &&& after.stage@ == stage.write(x as int, stage.read(y as int)).write(
                    y as int,
                    stage.read(x as int),
                )
            },
            Op::Move(x, y) => keeps && after.code@ == code && status is Running
                && after.stage@ == stage.write(y as int, stage.read(x as int)),
            Op::SetSlot(x, v) => keeps && after.code@ == code && status is Running
                && after.stage@ == stage.write(x as int, v),
            Op::Cursor(o) => keeps && after.code@ == code && status is Running
                && after.stage@ == stage.offset(o),
        }
    }

    /// Whether this instruction can run on `task`.
    pub fn can_execute(&self, task: &Task) -> (b: bool)
        ensures
            b == self.runnable(*task.constants, task.stage@),
    {
        let st = &task.stage;
        match *self {
            Op::Nop | Op::Yield => true,
            Op::Spawn(f) => task.constants.has_chunk(f),
            Op::If(x, t, e) => st.can_read(x) && task.constants.has_chunk(
                if st.get(x) != 0 { t } else { e },
            ),
            Op::Call(x, f) => can_move_temporarily(st, x) && task.constants.has_chunk(f),
            Op::Callf(x, _) => can_move_temporarily(st, x),
            Op::MapSlot(x, _) => st.can_read(x) && can_write(st, x),
            Op::Mapto(x, y, _) => st.can_read(x) && can_write(st, y),
            Op::Binop(x, _) => x < usize::MAX && st.can_read(x) && st.can_read(x + 1) && can_write(st, x),
            Op::Callv(x, v) => st.can_read(v) && can_move_temporarily(st, x),
            Op::Swap(x, y) => st.can_read(x) && st.can_read(y) && can_write(st, x) && can_write(st, y),
            Op::Move(x, y) => st.can_read(x) && can_write(st, y),
            Op::SetSlot(x, _) => can_write(st, x),
            Op::Cursor(o) => can_move(st, o),
        }
    }

    /// Executes the instruction on `task`, calling foreign functions
    /// through `ff`.
    pub fn execute<F: ForeignFunctions>(&self, task: &mut Task, ff: &F) -> (status: TaskStatus)
        requires
            self.runnable(*old(task).constants, old(task).stage@),
        ensures
            self.runs_to(ff, old(task).constants, old(task).stage@, old(task).code@, *final(task), status),
    {
        match *self {
            Op::Nop => {},
            Op::Yield => {
                return TaskStatus::Yielded;
            },
            Op::Spawn(f) => {
                let t = Task::new(task.constants.get_code(f), share_table(&task.constants));
                return TaskStatus::Spawning(t);
            },
            Op::If(x, t, e) => {
                let b = if task.stage.get(x) != 0 { t } else { e };
                task.expand(b);
            },
            Op::Call(x, f) => {
                task.temporary_offset(x);
                task.expand(f);
            },
            Op::Callf(x, f) => {
                task.temporary_offset(x);
                return ff.call(f, task);
            },
            Op::MapSlot(x, f) => {
                let v = ff.map(f, task.stage.get(x), share_table(&task.constants));
                task.stage.set(x, v);
                proof {
                    assert(ff.map_gives(f, old(task).stage@.read(x as int), old(task).constants, v));
                }
            },
            Op::Mapto(x, y, f) => {
                let v = ff.map(f, task.stage.get(x), share_table(&task.constants));
                task.stage.set(y, v);
                proof {
                    assert(ff.map_gives(f, old(task).stage@.read(x as int), old(task).constants, v));
                }
            },
            Op::Binop(x, f) => {
                let v = ff.binop(f, task.stage.get(x), task.stage.get(x + 1), share_table(&task.constants));
                task.stage.set(x, v);
                proof {
                    assert(ff.binop_gives(
                        f,
                        old(task).stage@.read(x as int),
                        old(task).stage@.read(x + 1),
                        old(task).constants,
                        v,
                    ));
                }
            },
            Op::Callv(x, v) => {
                let f = task.stage.get(v) as ConstRef;
                task.temporary_offset(x);
                let s = ff.call(f, task);
                proof {
                    assert(ff.call_gives(
                        f,
                        old(task).constants,
                        offset_stage(old(task).stage@, x),
                        offset_code(old(task).code@, x),
                        *task,
                        s,
                    ));
                }
            },
            Op::Swap(x, y) => {
                let tmp = task.stage.get(x);
                let vy = task.stage.get(y);
                task.stage.set(x, vy);
                task.stage.set(y, tmp);
            },
            Op::Move(x, y) => {
                let v = task.stage.get(x);
                task.stage.set(y, v);
            },
            Op::SetSlot(x, v) => {
                task.stage.set(x, v);
            },
            Op::Cursor(o) => {
                task.stage.offset(o);
            },
        }
        TaskStatus::Running
    }
}

/// Whether slot `idx` of `st` can be written.
fn can_write(st: &crate::task::Stage, idx: usize) -> (b: bool)
    ensures
        b == st@.writable(idx as int),
{
    st.cursor_position() < usize::MAX - idx
}

/// Whether the cursor of `st` can move by `o`.
fn can_move(st: &crate::task::Stage, o: isize) -> (b: bool)
    ensures
        b == st@.can_offset(o),
{
    let c = st.cursor_position() as isize;
    let n: i128 = o as i128 + c as i128;
    0 <= n && n <= isize::MAX as i128
}

/// Whether the cursor of `st` can move by `offset` temporarily.
fn can_move_temporarily(st: &crate::task::Stage, offset: usize) -> (b: bool)
    ensures
        b == can_offset_temporarily(st@, offset),
{
    offset == 0 || ((offset as isize) != isize::MIN && can_move(st, offset as isize))
}

/// The four little-endian bytes of `v`, least significant first.
pub open spec fn u32_bytes(v: int) -> Seq<u8> {
    seq![(v % 256) as u8, (v / 256 % 256) as u8, (v / 65536 % 256) as u8, (v / 16777216 % 256) as u8]
}

/// The two little-endian two's-complement bytes of `o`.
pub open spec fn i16_bytes(o: int) -> Seq<u8> {
    let u = if o < 0 { o + 0x10000 } else { o };
    seq![(u % 256) as u8, (u / 256 % 256) as u8]
}

/// The bytes of `op` as they lie on a code stack, bottom first: the
/// arguments in the reverse of the opcode table's order, then the opcode.
pub open spec fn encoded(op: Op) -> Seq<u8> {
    match op {
        Op::Nop => seq![0x00u8],
        Op::Yield => seq![0x01u8],
        Op::Spawn(f) => u32_bytes(f as int).push(0x02u8),
        Op::If(x, t, e) => (u32_bytes(e as int) + u32_bytes(t as int)).push(x as u8).push(0x03u8),
        Op::Call(x, f) => u32_bytes(f as int).push(x as u8).push(0x04u8),
        Op::Callf(x, f) => u32_bytes(f as int).push(x as u8).push(0x05u8),
        Op::MapSlot(x, f) => u32_bytes(f as int).push(x as u8).push(0x06u8),
        Op::Mapto(x, y, f) => u32_bytes(f as int).push(y as u8).push(x as u8).push(0x07u8),
        Op::Binop(x, f) => u32_bytes(f as int).push(x as u8).push(0x08u8),
        Op::Callv(x, v) => seq![v as u8, x as u8, 0x09u8],
        Op::Swap(x, y) => seq![y as u8, x as u8, 0x20u8],
        Op::Move(x, y) => seq![y as u8, x as u8, 0x21u8],
        Op::SetSlot(x, v) => seq![v as u8, x as u8, 0x22u8],
        Op::Cursor(o) => i16_bytes(o as int).push(0x23u8),
    }
}

/// Every field of `op` fits the width the opcode table gives it.
pub open spec fn encodable(op: Op) -> bool {
    match op {
        Op::Nop | Op::Yield => true,
        Op::Spawn(f) => f <= u32::MAX,
        Op::If(x, t, e) => x <= u8::MAX && t <= u32::MAX && e <= u32::MAX,
        Op::Call(x, f) | Op::Callf(x, f) | Op::MapSlot(x, f) | Op::Binop(x, f) => x <= u8::MAX && f <= u32::MAX,
        Op::Mapto(x, y, f) => x <= u8::MAX && y <= u8::MAX && f <= u32::MAX,
        Op::Callv(x, y) | Op::Swap(x, y) | Op::Move(x, y) => x <= u8::MAX && y <= u8::MAX,
        Op::SetSlot(x, v) => x <= u8::MAX && v <= u8::MAX,
        Op::Cursor(o) => i16::MIN <= o <= i16::MAX,
    }
}

proof fn lemma_u32_bytes(v: int)
    requires
        0 <= v <= u32::MAX,
    ensures
        u32_bytes(v).len() == 4,
        le_u32(u32_bytes(v)[0], u32_bytes(v)[1], u32_bytes(v)[2], u32_bytes(v)[3]) == v,
{
}

proof fn lemma_i16_bytes(o: int)
    requires
        i16::MIN <= o <= i16::MAX,
    ensures
        i16_bytes(o).len() == 2,
        i16_below(i16_bytes(o), 2) == o,
{
}

/// The byte layout of the opcode table is what `decode` reads: an
/// instruction whose fields fit their widths takes `byte_width` bytes, and
/// decoding it from the top of any code stack gives it back.
pub proof fn lemma_encoded_decodes(op: Op, below: Seq<u8>)
    requires
        encodable(op),
    ensures
        encoded(op).len() == width(op),
        decode_spec(below + encoded(op)) == Ok::<Op, OpDecodeError>(op),
{
    let c = below + encoded(op);
    let n = below.len() as int;
    match op {
        Op::Spawn(f) => {
            lemma_u32_bytes(f as int);
            assert(u32_below(c, n + 4) == f);
        },
        Op::If(x, t, e) => {
            lemma_u32_bytes(t as int);
            lemma_u32_bytes(e as int);
            assert(u32_below(c, n + 8) == t);
            assert(u32_below(c, n + 4) == e);
        },
        Op::Call(x, f) | Op::Callf(x, f) | Op::MapSlot(x, f) | Op::Binop(x, f) => {
            lemma_u32_bytes(f as int);
            assert(u32_below(c, n + 4) == f);
        },
        Op::Mapto(x, y, f) => {
            lemma_u32_bytes(f as int);
            assert(u32_below(c, n + 4) == f);
        },
        Op::Cursor(o) => {
            lemma_i16_bytes(o as int);
            assert(i16_below(c, n + 2) == i16_below(i16_bytes(o as int), 2));
        },
        _ => {},
    }
}

/// Decoding looks at nothing but the instruction's own bytes: whatever lies
/// below them, the same instruction comes out.
pub proof fn lemma_decode_reads_only_top(code: Seq<u8>, below: Seq<u8>)
    requires
        code.len() > 0,
        decode_spec(code) is Ok,
    ensures
        width(decode_spec(code)->Ok_0) <= code.len(),
        decode_spec(below + code.subrange(code.len() - width(decode_spec(code)->Ok_0), code.len() as int))
            == decode_spec(code),
{
    let op = decode_spec(code)->Ok_0;
    let w = width(op) as int;
    let top = code.subrange(code.len() - w, code.len() as int);
    let c = below + top;
    let d = c.len() - code.len();
    assert forall|k: int| code.len() - w <= k < code.len() implies c[k + d] == code[k] by {}
    assert(c.len() - 1 == code.len() - 1 + d);
}

} // verus!

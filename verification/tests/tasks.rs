use std::sync::Arc;

use stackpile::op::{ConstRef, ForeignFunctions, Op};
use stackpile::runtime::ConstantTable;
use stackpile::task::{Code, Stage, Task, TaskStatus};

/// Foreign functions for the tests: `call` at 100 yields and at 200 dies
/// (writing 9 to slot 0 first), `map` doubles, `binop` gives `10 a + b`.
struct Host;

impl ForeignFunctions for Host {
    fn call(&self, f: ConstRef, task: &mut Task) -> TaskStatus {
        task.stage.set(0, 9);
        if f == 100 {
            TaskStatus::Yielded
        } else {
            TaskStatus::Dead
        }
    }

    fn map(&self, _f: ConstRef, value: u32, _c: Arc<ConstantTable>) -> u32 {
        value * 2
    }

    fn binop(&self, _f: ConstRef, a: u32, b: u32, _c: Arc<ConstantTable>) -> u32 {
        a * 10 + b
    }
}

fn chunk(bytes: &[u8]) -> Vec<u8> {
    let mut v = (bytes.len() as u32).to_le_bytes().to_vec();
    v.extend_from_slice(bytes);
    v
}

/// A table with a chunk `[0x01]` at 0 and a chunk `[0x00, 0x00]` at 5.
fn table() -> Arc<ConstantTable> {
    let mut constants = chunk(&[0x01]);
    constants.extend(chunk(&[0x00, 0x00]));
    Arc::new(ConstantTable { names: vec![("main".to_string(), 5)], constants: constants })
}

fn task_with(code: Vec<u8>) -> Task {
    Task::new(Code::new(code), table())
}

fn cells(stage: &Stage, n: usize) -> Vec<u32> {
    (0..n).map(|i| stage.get(i)).collect()
}

#[test]
fn stage_write_grows_with_zeros_and_reads_back() {
    let mut s = Stage::new(4);
    assert!(!s.can_read(0));
    s.set(3, 7);
    assert!(s.can_read(3));
    assert!(!s.can_read(4));
    assert_eq!(cells(&s, 4), vec![0, 0, 0, 7]);
    s.set(1, 5);
    assert_eq!(cells(&s, 4), vec![0, 5, 0, 7]);
}

#[test]
fn stage_offset_moves_slot_numbers() {
    let mut s = Stage::new(0);
    s.set(2, 42);
    s.offset(2);
    assert_eq!(s.cursor_position(), 2);
    assert_eq!(s.get(0), 42);
    s.offset(-2);
    assert_eq!(s.get(2), 42);
}

#[test]
fn code_next_takes_instructions_off_the_top() {
    let mut c = Code::new(vec![0x01, 6, 0, 0x22, 0x00]);
    assert_eq!(c.next(), Some(Op::Nop));
    assert_eq!(c.next(), Some(Op::SetSlot(0, 6)));
    assert_eq!(c.next(), Some(Op::Yield));
    assert_eq!(c.next(), None);
    assert_eq!(c.next(), None);
}

#[test]
fn constant_table_chunks() {
    let t = table();
    assert!(t.has_chunk(0));
    assert!(t.has_chunk(5));
    assert!(!t.has_chunk(1));
    assert!(!t.has_chunk(11));
    assert_eq!(t.get_chunk(0), &[0x01]);
    assert_eq!(t.get_chunk(5), &[0x00, 0x00]);
    let mut code = t.get_code(5);
    assert_eq!(code.next(), Some(Op::Nop));
}

#[test]
fn constant_table_main() {
    let t = table();
    assert!(t.has_main());
    let mut code = t.main();
    assert_eq!(code.next(), Some(Op::Nop));
    assert_eq!(code.next(), Some(Op::Nop));
    assert_eq!(code.next(), None);
    let two = ConstantTable {
        names: vec![("main".to_string(), 0), ("main".to_string(), 5)],
        constants: t.constants.clone(),
    };
    assert!(!two.has_main());
    let none = ConstantTable { names: vec![("start".to_string(), 0)], constants: t.constants.clone() };
    assert!(!none.has_main());
}

#[test]
fn step_on_empty_code_is_dead() {
    let mut t = task_with(vec![]);
    assert!(t.can_step());
    assert!(matches!(t.step(&Host), TaskStatus::Dead));
}

#[test]
fn steps_run_set_move_swap() {
    // Bottom to top: swap 0 1, move 0 1, set 0 6
    let mut t = task_with(vec![1, 0, 0x20, 1, 0, 0x21, 6, 0, 0x22]);
    assert!(matches!(t.step(&Host), TaskStatus::Running));
    assert_eq!(cells(&t.stage, 1), vec![6]);
    assert!(matches!(t.step(&Host), TaskStatus::Running));
    assert_eq!(cells(&t.stage, 2), vec![6, 6]);
    t.stage.set(1, 3);
    assert!(matches!(t.step(&Host), TaskStatus::Running));
    assert_eq!(cells(&t.stage, 2), vec![3, 6]);
}

#[test]
fn yield_and_spawn() {
    let mut t = task_with(vec![0, 0, 0, 0, 0x02, 0x01]);
    assert!(matches!(t.step(&Host), TaskStatus::Yielded));
    match t.step(&Host) {
        TaskStatus::Spawning(mut child) => {
            assert_eq!(child.code.next(), Some(Op::Yield));
            assert_eq!(child.code.next(), None);
            assert!(Arc::ptr_eq(&child.constants, &t.constants));
        },
        _ => panic!("expected a spawned task"),
    }
}

#[test]
fn if_expands_the_chosen_branch() {
    // if 0 then <chunk at 0> else <chunk at 5>
    let code = vec![5, 0, 0, 0, 0, 0, 0, 0, 0, 0x03];
    let mut t = task_with(code.clone());
    t.stage.set(0, 1);
    assert!(matches!(t.step(&Host), TaskStatus::Running));
    assert_eq!(t.code.next(), Some(Op::Yield));
    let mut e = task_with(code);
    e.stage.set(0, 0);
    assert!(matches!(e.step(&Host), TaskStatus::Running));
    assert_eq!(e.code.next(), Some(Op::Nop));
    assert_eq!(e.code.next(), Some(Op::Nop));
    assert_eq!(e.code.next(), None);
}

#[test]
fn call_moves_the_cursor_until_the_callee_is_done() {
    // call 2 <chunk at 5>, which holds two nops
    let mut t = task_with(vec![5, 0, 0, 0, 2, 0x04]);
    assert!(matches!(t.step(&Host), TaskStatus::Running));
    assert_eq!(t.stage.cursor_position(), 2);
    assert!(matches!(t.step(&Host), TaskStatus::Running));
    assert!(matches!(t.step(&Host), TaskStatus::Running));
    assert_eq!(t.stage.cursor_position(), 2);
    // the pushed restore instruction
    assert!(matches!(t.step(&Host), TaskStatus::Running));
    assert_eq!(t.stage.cursor_position(), 0);
    assert!(matches!(t.step(&Host), TaskStatus::Dead));
}

#[test]
fn temporary_offset_then_restore() {
    let mut t = task_with(vec![0x01]);
    t.temporary_offset(300);
    assert_eq!(t.stage.cursor_position(), 300);
    assert!(matches!(t.step(&Host), TaskStatus::Running));
    assert_eq!(t.stage.cursor_position(), 0);
    assert!(matches!(t.step(&Host), TaskStatus::Yielded));
    let mut z = task_with(vec![]);
    z.temporary_offset(0);
    assert_eq!(z.stage.cursor_position(), 0);
    assert!(matches!(z.step(&Host), TaskStatus::Dead));
}

#[test]
fn temporary_offset_beyond_sixteen_bits_is_not_undone() {
    let mut t = task_with(vec![]);
    t.temporary_offset(40000);
    assert_eq!(t.stage.cursor_position(), 40000);
    assert!(matches!(t.step(&Host), TaskStatus::Running));
    assert_ne!(t.stage.cursor_position(), 0);
}

#[test]
fn foreign_map_mapto_binop() {
    // bottom to top: binop 0, mapto 0 1, map 0
    let mut t = task_with(vec![7, 0, 0, 0, 0, 0x08, 7, 0, 0, 0, 1, 0, 0x07, 7, 0, 0, 0, 0, 0x06]);
    t.stage.set(0, 5);
    assert!(t.can_step());
    assert!(matches!(t.step(&Host), TaskStatus::Running));
    assert_eq!(cells(&t.stage, 1), vec![10]);
    assert!(matches!(t.step(&Host), TaskStatus::Running));
    assert_eq!(cells(&t.stage, 2), vec![10, 20]);
    // the foreign binary function gets slot 0 first, then slot 1
    assert!(matches!(t.step(&Host), TaskStatus::Running));
    assert_eq!(cells(&t.stage, 2), vec![120, 20]);
}

#[test]
fn callf_returns_the_foreign_status_and_callv_does_not() {
    let mut t = task_with(vec![100, 0, 0, 0, 0, 0x05]);
    assert!(matches!(t.step(&Host), TaskStatus::Yielded));
    assert_eq!(t.stage.get(0), 9);
    // callv 0 1: the function reference is in slot 1
    let mut v = task_with(vec![1, 0, 0x09]);
    v.stage.set(1, 200);
    assert!(matches!(v.step(&Host), TaskStatus::Running));
    assert_eq!(v.stage.get(0), 9);
}

#[test]
fn callf_hands_over_the_task_with_its_cursor_moved() {
    // callf 2 100: the foreign function writes 9 to its slot 0
    let mut t = task_with(vec![100, 0, 0, 0, 2, 0x05]);
    assert!(matches!(t.step(&Host), TaskStatus::Yielded));
    assert_eq!(t.stage.cursor_position(), 2);
    assert_eq!(t.stage.get(0), 9);
    // the pushed restore instruction runs next
    assert!(matches!(t.step(&Host), TaskStatus::Running));
    assert_eq!(t.stage.cursor_position(), 0);
    assert_eq!(t.stage.get(2), 9);
}

#[test]
fn can_step_refuses_what_would_panic() {
    assert!(!task_with(vec![0x42]).can_step());
    assert!(!task_with(vec![0x02]).can_step());
    // move 0 1 with an empty stage reads slot 0
    assert!(!task_with(vec![1, 0, 0x21]).can_step());
    // cursor -1 from position 0
    assert!(!task_with(vec![0xff, 0xff, 0x23]).can_step());
    // spawn of a chunk that does not exist
    assert!(!task_with(vec![1, 0, 0, 0, 0x02]).can_step());
    assert!(task_with(vec![6, 0, 0x22]).can_step());
    let op = Op::Binop(0, 0);
    let mut t = task_with(vec![]);
    assert!(!op.can_execute(&t));
    t.stage.set(1, 1);
    assert!(op.can_execute(&t));
}

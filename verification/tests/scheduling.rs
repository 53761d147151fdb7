use std::sync::{Arc, Mutex};

use stackpile::natives::{ff_add, ff_less_than, ff_sub};
use stackpile::op::{ConstRef, ForeignFunctions};
use stackpile::runtime::{ConstantTable, Runtime, RuntimeSettings, Scheduler};
use stackpile::task::{Code, Task, TaskStatus};
use stackpile::worker::{Worker, WorkerCommand, WorkerHandle, WorkerReport};

fn empty_table() -> Arc<ConstantTable> {
    Arc::new(ConstantTable { names: vec![], constants: vec![] })
}

fn task(code: Vec<u8>) -> Task {
    Task::new(Code::new(code), empty_table())
}

struct NoForeign;

impl ForeignFunctions for NoForeign {
    fn call(&self, _f: ConstRef, _t: &mut Task) -> TaskStatus {
        TaskStatus::Running
    }
    fn map(&self, _f: ConstRef, v: u32, _c: Arc<ConstantTable>) -> u32 {
        v
    }
    fn binop(&self, _f: ConstRef, a: u32, _b: u32, _c: Arc<ConstantTable>) -> u32 {
        a
    }
}

#[test]
fn natives_compute() {
    assert_eq!(ff_less_than(1, 2, empty_table()), 1);
    assert_eq!(ff_less_than(2, 2, empty_table()), 0);
    assert_eq!(ff_add(40, 2, empty_table()), 42);
    assert_eq!(ff_sub(40, 2, empty_table()), 38);
}

#[test]
fn settings() {
    let s = RuntimeSettings::for_cpus(8);
    assert_eq!(s.worker_pool_size, 7);
    assert_eq!(s.rewrite_quota, 32);
    assert_eq!(RuntimeSettings::for_cpus(1).worker_pool_size, 0);
    assert_eq!(RuntimeSettings::default().rewrite_quota, 32);
}

#[test]
fn new_worker_waits_for_its_first_task() {
    let mut w = Worker::new(3, 32);
    assert!(w.is_alive());
    assert!(w.next_task());
    w.wait_for_task(WorkerCommand::SpawnTask(task(vec![0x01])));
    assert!(w.can_step());
    assert!(matches!(w.step_current_task(&NoForeign), TaskStatus::Yielded));
}

#[test]
fn worker_dies_on_command_while_waiting() {
    let mut w = Worker::new(0, 32);
    assert!(w.next_task());
    w.wait_for_task(WorkerCommand::Die);
    assert!(!w.is_alive());
    w.shutdown();
    let reports = w.take_reports();
    assert_eq!(reports.len(), 1);
    assert!(matches!(reports[0], WorkerReport::Dead(0)));
}

#[test]
fn worker_runs_tasks_round_robin() {
    let mut w = Worker::new(1, 32);
    assert!(w.next_task());
    // task A yields then dies; task B dies
    w.wait_for_task(WorkerCommand::SpawnTask(task(vec![0x01])));
    w.check_for_interrupt(Some(WorkerCommand::SpawnTask(task(vec![0x00]))));
    w.check_for_interrupt(None);
    // current task is A (index 0)
    let s = w.step_current_task(&NoForeign);
    assert!(matches!(s, TaskStatus::Yielded));
    assert!(!w.run(s));
    // now B: nop
    let s = w.step_current_task(&NoForeign);
    assert!(matches!(s, TaskStatus::Running));
    assert!(!w.run(s));
    let s = w.step_current_task(&NoForeign);
    assert!(matches!(s, TaskStatus::Dead));
    assert!(w.can_run(&s));
    // B removed, back to A
    assert!(!w.run(s));
    let reports = w.take_reports();
    assert!(matches!(reports[..], [WorkerReport::Finsihed(1)]));
    let s = w.step_current_task(&NoForeign);
    assert!(matches!(s, TaskStatus::Dead));
    // A removed: no task left, wait
    assert!(w.run(s));
    assert!(w.take_reports().len() == 1);
}

#[test]
fn worker_removing_first_of_three_wraps_to_the_next() {
    let mut w = Worker::new(4, 32);
    assert!(w.next_task());
    // three tasks: dies at once, yields, nop
    w.wait_for_task(WorkerCommand::SpawnTask(task(vec![])));
    w.check_for_interrupt(Some(WorkerCommand::SpawnTask(task(vec![0x01]))));
    w.check_for_interrupt(Some(WorkerCommand::SpawnTask(task(vec![0x00]))));
    let s = w.step_current_task(&NoForeign);
    assert!(matches!(s, TaskStatus::Dead));
    assert!(w.can_run(&s));
    assert!(!w.run(s));
    // the task that followed the removed one is current: it yields
    assert!(matches!(w.step_current_task(&NoForeign), TaskStatus::Yielded));
    let reports = w.take_reports();
    assert!(matches!(reports[..], [WorkerReport::Finsihed(4)]));
}

#[test]
fn live_worker_without_tasks_waits_instead_of_polling() {
    let mut w = Worker::new(0, 32);
    assert!(w.check_for_interrupt(None));
    w.wait_for_task(WorkerCommand::SpawnTask(task(vec![0x01])));
    assert!(!w.check_for_interrupt(None));
    assert!(w.can_step());
    assert!(matches!(w.step_current_task(&NoForeign), TaskStatus::Yielded));
    let mut d = Worker::new(1, 32);
    assert!(!d.check_for_interrupt(Some(WorkerCommand::Die)));
    assert!(!d.is_alive());
    assert!(!d.can_step());
    assert!(!d.check_for_interrupt(None));
}

#[test]
fn reports_come_in_step_order_with_dead_last() {
    let mut w = Worker::new(6, 32);
    assert!(w.next_task());
    w.wait_for_task(WorkerCommand::SpawnTask(task(vec![])));
    assert!(!w.run(TaskStatus::Spawning(task(vec![]))));
    assert!(!w.run(TaskStatus::Running));
    assert!(w.run(TaskStatus::Dead));
    w.wait_for_task(WorkerCommand::Die);
    w.shutdown();
    let reports = w.take_reports();
    assert!(matches!(
        reports[..],
        [WorkerReport::SpawnTask(_), WorkerReport::Finsihed(6), WorkerReport::Dead(6)]
    ));
}

#[test]
fn worker_queues_spawned_tasks() {
    let mut w = Worker::new(2, 32);
    assert!(w.next_task());
    w.wait_for_task(WorkerCommand::SpawnTask(task(vec![])));
    assert!(!w.run(TaskStatus::Spawning(task(vec![0x01]))));
    let reports = w.take_reports();
    assert_eq!(reports.len(), 1);
    assert!(matches!(reports[0], WorkerReport::SpawnTask(_)));
}

#[test]
fn interrupt_die_stops_the_worker() {
    let mut w = Worker::new(0, 32);
    assert!(w.next_task());
    w.wait_for_task(WorkerCommand::SpawnTask(task(vec![])));
    w.check_for_interrupt(Some(WorkerCommand::Die));
    assert!(!w.is_alive());
    // a stopped worker ignores commands
    w.check_for_interrupt(Some(WorkerCommand::SpawnTask(task(vec![]))));
    assert!(!w.is_alive());
}

#[test]
fn rewrite_counter_wraps_at_the_quota() {
    let mut w = Worker::new(0, 2);
    assert!(w.next_task());
    w.wait_for_task(WorkerCommand::SpawnTask(task(vec![])));
    for _ in 0..5 {
        assert!(w.can_run(&TaskStatus::Running));
        assert!(!w.run(TaskStatus::Running));
    }
}

#[test]
fn scheduler_grows_pool_then_balances() {
    let mut s = Scheduler::new(2, 32);
    let (i, w) = s.spawn_task();
    assert_eq!(i, 0);
    assert!(w.is_some());
    let (i, w) = s.spawn_task();
    assert_eq!(i, 1);
    assert!(w.is_some());
    // pool full: least loaded, first on ties
    let (i, w) = s.spawn_task();
    assert_eq!(i, 0);
    assert!(w.is_none());
    let (i, _) = s.spawn_task();
    assert_eq!(i, 1);
    assert_eq!(s.task_count(), 4);
    s.worker_finished(1);
    let (i, _) = s.spawn_task();
    assert_eq!(i, 1);
    s.worker_finished(7);
    assert_eq!(s.task_count(), 4);
    let handles = s.shutdown_workers();
    assert_eq!(handles, vec![WorkerHandle { id: 0, task_count: 2 }, WorkerHandle { id: 1, task_count: 2 }]);
}

#[test]
fn scheduler_with_empty_pool_makes_one_worker() {
    let mut s = Scheduler::new(0, 32);
    let (i, w) = s.spawn_task();
    assert_eq!(i, 0);
    assert!(w.is_some());
    let (i, w) = s.spawn_task();
    assert_eq!(i, 0);
    assert!(w.is_none());
}

#[test]
fn finishing_a_spawned_task_gives_counts_back() {
    let mut s = Scheduler::new(1, 32);
    let (i, _) = s.spawn_task();
    s.worker_finished(i as u32);
    assert_eq!(s.task_count(), 0);
    let (j, w) = s.spawn_task();
    assert_eq!(j, i);
    assert!(w.is_none());
    s.worker_finished(j as u32);
    assert_eq!(s.task_count(), 0);
}

#[test]
fn scheduler_reports() {
    let mut s = Scheduler::new(1, 32);
    assert!(!s.can_handle(&WorkerReport::Dead(0)));
    assert!(!s.can_handle(&WorkerReport::Finsihed(0)) || s.task_count() == 0);
    let r = s.handle_report(WorkerReport::SpawnTask(task(vec![])));
    match r {
        Some((0, Some(_), _)) => {},
        _ => panic!("expected placement on a new worker"),
    }
    assert!(s.can_handle(&WorkerReport::Finsihed(0)));
    assert!(s.handle_report(WorkerReport::Finsihed(0)).is_none());
    assert_eq!(s.task_count(), 0);
    assert!(!s.can_handle(&WorkerReport::Finsihed(0)));
}

fn chunk(bytes: &[u8]) -> Vec<u8> {
    let mut v = (bytes.len() as u32).to_le_bytes().to_vec();
    v.extend_from_slice(bytes);
    v
}

#[test]
fn runtime_start_places_main() {
    let ct = ConstantTable { names: vec![("main".to_string(), 0)], constants: chunk(&[0x01]) };
    let mut rt = Runtime::new(RuntimeSettings::for_cpus(4), ct);
    assert!(rt.constants.has_main());
    let (i, w, mut t) = rt.start();
    assert_eq!(i, 0);
    assert!(w.is_some());
    assert_eq!(rt.scheduler.task_count(), 1);
    assert!(matches!(t.step(&NoForeign), TaskStatus::Yielded));
}

/// The foreign functions of the sample program; printing records values.
struct SampleNatives {
    printed: Mutex<Vec<u32>>,
}

impl ForeignFunctions for SampleNatives {
    fn call(&self, f: ConstRef, t: &mut Task) -> TaskStatus {
        assert_eq!(f, 0);
        self.printed.lock().unwrap().push(t.stage.get(0));
        TaskStatus::Running
    }
    fn map(&self, _f: ConstRef, _v: u32, _c: Arc<ConstantTable>) -> u32 {
        panic!("no map function")
    }
    fn binop(&self, f: ConstRef, a: u32, b: u32, c: Arc<ConstantTable>) -> u32 {
        match f {
            8 => ff_less_than(a, b, c),
            16 => ff_add(a, b, c),
            24 => ff_sub(a, b, c),
            _ => panic!("no binary function"),
        }
    }
}

fn sample_table() -> ConstantTable {
    let p = 0xFF;
    let l = 0xFE;
    let a = 0xFD;
    let s = 0xFC;
    let f_main: Vec<u8> = vec![
        p, p, p, p, p, p, p, p, l, l, l, l, l, l, l, l, a, a, a, a, a, a, a, a, s, s, s, s, s, s, s, s,
        15, 0, 0, 0, 0, 0, 0, 0, 0, 0x05, 51, 0, 0, 0, 0, 0x04, 6, 0, 0x22,
        22, 0, 0, 0, 84, 0, 0, 0, 77, 0, 0, 0, 1, 0x03, 8, 0, 0, 0, 1, 0x08, 2, 2, 0x22, 1, 0, 0x21,
        3, 0, 0, 0, 1, 0, 0x22,
        45, 0, 0, 0, 0, 1, 0x21, 16, 0, 0, 0, 1, 0x08, 51, 0, 0, 0, 2, 0x04, 24, 0, 0, 0, 2, 0x08,
        2, 3, 0x22, 2, 0, 0x21, 51, 0, 0, 0, 1, 0x04, 24, 0, 0, 0, 1, 0x08, 1, 2, 0x22, 1, 0, 0x21,
    ];
    ConstantTable { names: vec![("main".to_string(), 32)], constants: f_main }
}

#[test]
fn sample_program_prints_fibonacci_of_six() {
    let natives = SampleNatives { printed: Mutex::new(vec![]) };
    let mut rt = Runtime::new(RuntimeSettings::for_cpus(2), sample_table());
    let (_, worker, main_task) = rt.start();
    let mut w = worker.unwrap();
    assert!(w.next_task());
    w.wait_for_task(WorkerCommand::SpawnTask(main_task));
    let mut steps = 0;
    loop {
        assert!(w.can_step());
        let status = w.step_current_task(&natives);
        assert!(w.can_run(&status));
        steps += 1;
        if w.run(status) {
            break;
        }
    }
    assert!(steps > 10);
    assert_eq!(*natives.printed.lock().unwrap(), vec![13]);
    for report in w.take_reports() {
        assert!(rt.scheduler.can_handle(&report));
        rt.scheduler.handle_report(report);
    }
    assert_eq!(rt.scheduler.task_count(), 0);
}

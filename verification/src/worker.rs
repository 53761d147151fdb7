//! A worker runs its tasks round-robin. The decisions of its loop live
//! here; receiving commands and sending reports is left to its host, which
//! hands received commands in and sends the reports queued here.
use vstd::prelude::*;

use crate::op::ForeignFunctions;
use crate::task::{Task, TaskStatus};

verus! {

pub type WorkerId = u32;

/// Status reports that a worker sends to the scheduler.
pub enum WorkerReport {
    Dead(WorkerId),
    Finsihed(WorkerId),
    SpawnTask(Task),
}

/// Commands that the scheduler sends to a worker.
pub enum WorkerCommand {
    SpawnTask(Task),
    Die,
}

/// What the scheduler keeps of a worker: its id and how many tasks it has.
#[derive(Copy, Clone, Debug, PartialEq, Eq)]
pub struct WorkerHandle {
    pub id: WorkerId,
    pub task_count: u32,
}

/// The state of a worker.
pub struct WorkerView {
    pub id: WorkerId,
    pub rewrites: u32,
    pub rewrite_quota: u32,
    pub tasks: Seq<Task>,
    pub alive: bool,
    pub current_task: usize,
    /// Reports waiting to be sent, oldest first.
    pub outbox: Seq<WorkerReport>,
}

impl WorkerView {
    /// While the worker is alive it points at one of its tasks.
    pub open spec fn inv(self) -> bool {
        self.alive ==> self.current_task < self.tasks.len()
    }

    /// The same worker with another current task.
    pub open spec fn at(self, current: usize) -> WorkerView {
        WorkerView { current_task: current, ..self }
    }
}

/// A task manager that runs on its own thread.
pub struct Worker {
    id: WorkerId,
    rewrites: u32,
    rewrite_quota: u32,
    tasks: Vec<Task>,
    alive: bool,
    current_task: usize,
    outbox: Vec<WorkerReport>,
}

impl View for Worker {
    type V = WorkerView;

    closed spec fn view(&self) -> WorkerView {
        WorkerView {
            id: self.id,
            rewrites: self.rewrites,
            rewrite_quota: self.rewrite_quota,
            tasks: self.tasks@,
            alive: self.alive,
            current_task: self.current_task,
            outbox: self.outbox@,
        }
    }
}

/// The reports queued by one turn of the loop whose step returned `status`:
/// a finished task for `Dead`, the new task for `Spawning`, else none.
pub open spec fn turn_report(id: WorkerId, status: TaskStatus) -> Seq<WorkerReport> {
    match status {
        TaskStatus::Dead => seq![WorkerReport::Finsihed(id)],
        TaskStatus::Spawning(t) => seq![WorkerReport::SpawnTask(t)],
        _ => Seq::empty(),
    }
}

/// The reports of turns whose steps returned `statuses`, in order.
pub open spec fn turn_reports(id: WorkerId, statuses: Seq<TaskStatus>) -> Seq<WorkerReport>
    decreases statuses.len(),
{
    if statuses.len() == 0 {
        Seq::empty()
    } else {
        turn_reports(id, statuses.drop_last()) + turn_report(id, statuses.last())
    }
}

/// A worker sends its reports in step order: over turns whose steps
/// returned `statuses`, the queue grows by one report for each finished or
/// spawning step, in that order, and the report that it stopped comes last.
pub proof fn lemma_reports_in_step_order(states: Seq<WorkerView>, statuses: Seq<TaskStatus>)
    requires
        states.len() == statuses.len() + 1,
        forall|i: int|
            0 <= i < statuses.len() ==> #[trigger] states[i + 1].outbox == states[i].outbox + turn_report(
                states[0].id,
                statuses[i],
            ),
    ensures
        states.last().outbox == states[0].outbox + turn_reports(states[0].id, statuses),
        states.last().outbox.push(WorkerReport::Dead(states[0].id)) == states[0].outbox + turn_reports(
            states[0].id,
            statuses,
        ).push(WorkerReport::Dead(states[0].id)),
    decreases statuses.len(),
{
    if statuses.len() > 0 {
        let n = statuses.len() as int;
        lemma_reports_in_step_order(states.drop_last(), statuses.drop_last());
        assert(states[n] == states.last());
        assert(states.drop_last()[0] == states[0]);
        assert(states.drop_last().last() == states[n - 1]);
        assert(states[n - 1 + 1].outbox == states[n - 1].outbox + turn_report(states[0].id, statuses[n - 1]));
    }
    assert(states.last().outbox.push(WorkerReport::Dead(states[0].id)) =~= states[0].outbox + turn_reports(
        states[0].id,
        statuses,
    ).push(WorkerReport::Dead(states[0].id)));
}

impl Worker {
    pub fn new(id: WorkerId, quota: u32) -> (w: Worker)
        ensures
            w@ == (WorkerView {
                id: id,
                rewrites: 0,
                rewrite_quota: quota,
                tasks: Seq::empty(),
                alive: true,
                current_task: 0,
                outbox: Seq::empty(),
            }),
    {
        Worker {
            id: id,
            rewrites: 0,
            rewrite_quota: quota,
            tasks: Vec::new(),
            alive: true,
            current_task: 0,
            outbox: Vec::new(),
        }
    }

    pub fn is_alive(&self) -> (b: bool)
        ensures
            b == self@.alive,
    {
        self.alive
    }

    /// Hands out the reports waiting to be sent, oldest first.
    pub fn take_reports(&mut self) -> (reports: Vec<WorkerReport>)
        ensures
            reports@ == old(self)@.outbox,
            final(self)@ == (WorkerView { outbox: Seq::empty(), ..old(self)@ }),
    {
        let mut reports = Vec::new();
        std::mem::swap(&mut reports, &mut self.outbox);
        reports
    }

    /// Counts a rewrite of the current task; the count starts again at the
    /// quota.
    pub fn tick_task(&mut self)
        requires
            old(self)@.rewrites < u32::MAX,
        ensures
            final(self)@ == (WorkerView {
                rewrites: if old(self)@.rewrites + 1 == old(self)@.rewrite_quota {
                    0
                } else {
                    (old(self)@.rewrites + 1) as u32
                },
                ..old(self)@
            }),
    {
        self.rewrites = self.rewrites + 1;
        if self.rewrites == self.rewrite_quota {
            self.rewrites = 0;
        }
    }

    /// Switches to the next task, cyclically. With no task left the worker
    /// must wait for a command: then the result is `true`, the current task
    /// is reset to 0, and the command goes to `wait_for_task`.
    pub fn next_task(&mut self) -> (wait: bool)
        requires
            old(self)@.tasks.len() > 0 ==> old(self)@.current_task < usize::MAX,
        ensures
            wait == (old(self)@.tasks.len() == 0),
            wait ==> final(self)@ == old(self)@.at(0),
            !wait ==> final(self)@ == old(self)@.at(
                ((old(self)@.current_task + 1) % (old(self)@.tasks.len() as int)) as usize,
            ),
            !wait ==> final(self)@.inv(),
    {
        if self.tasks.len() == 0 {
            self.current_task = 0;
            return true;
        }
        self.current_task = (self.current_task + 1) % self.tasks.len();
        false
    }

    /// Takes the command received while waiting for a task.
    pub fn wait_for_task(&mut self, command: WorkerCommand)
        ensures
            match command {
                WorkerCommand::SpawnTask(t) => final(self)@ == (WorkerView {
                    tasks: old(self)@.tasks.push(t),
                    ..old(self)@
                }),
                WorkerCommand::Die => final(self)@ == (WorkerView { alive: false, ..old(self)@ }),
            },
            old(self)@.tasks.len() == 0 && old(self)@.current_task == 0 ==> final(self)@.inv(),
    {
        match command {
            WorkerCommand::SpawnTask(t) => {
                self.tasks.push(t);
            },
            WorkerCommand::Die => {
                self.alive = false;
            },
        }
    }

    /// The current task can take a step: the worker is alive (no task is
    /// stepped once it stopped) and points at one of its tasks.
    pub open spec fn can_step_spec(&self) -> bool {
        &&& self@.alive
        &&& self@.current_task < self@.tasks.len()
        &&& self@.tasks[self@.current_task as int].steppable()
    }

    /// Whether `step_current_task` may be called.
    pub fn can_step(&self) -> (b: bool)
        ensures
            b == self.can_step_spec(),
    {
        self.alive && self.current_task < self.tasks.len() && self.tasks[self.current_task].can_step()
    }

    /// Runs one step of the current task.
    pub fn step_current_task<F: ForeignFunctions>(&mut self, ff: &F) -> (status: TaskStatus)
        requires
            old(self).can_step_spec(),
        ensures
            final(self)@ == (WorkerView {
                tasks: old(self)@.tasks.update(old(self)@.current_task as int, final(self)@.tasks[old(self)@.current_task as int]),
                ..old(self)@
            }),
            old(self)@.tasks[old(self)@.current_task as int].stepped_to(
                ff,
                final(self)@.tasks[old(self)@.current_task as int],
                status,
            ),
    {
        let i = self.current_task;
        let task = &mut self.tasks[i];
        task.step(ff)
    }

    /// Takes the result of polling for a command between two steps: `None`
    /// when nothing was waiting. A dead worker ignores it. A live worker
    /// that has no task blocks and waits instead: then the result is `true`,
    /// the current task is reset to 0, and the command that arrives goes to
    /// `wait_for_task`.
    pub fn check_for_interrupt(&mut self, polled: Option<WorkerCommand>) -> (wait: bool)
        ensures
            wait == (old(self)@.alive && old(self)@.tasks.len() == 0 && polled is None),
            !old(self)@.alive ==> final(self)@ == old(self)@,
            old(self)@.alive && polled is None && old(self)@.tasks.len() > 0 ==> final(self)@ == old(self)@,
            wait ==> final(self)@ == old(self)@.at(0),
            old(self)@.alive ==> match polled {
                Some(WorkerCommand::SpawnTask(t)) => final(self)@ == (WorkerView {
                    tasks: old(self)@.tasks.push(t),
                    current_task: if old(self)@.tasks.len() == 0 { 0 } else { old(self)@.current_task },
                    ..old(self)@
                }),
                Some(WorkerCommand::Die) => final(self)@ == (WorkerView { alive: false, ..old(self)@ }),
                None => true,
            },
            old(self)@.inv() ==> final(self)@.inv(),
            wait ==> final(self)@.tasks.len() == 0 && final(self)@.current_task == 0,
    {
        if !self.alive {
            return false;
        }
        let empty = self.tasks.len() == 0;
        match polled {
            Some(WorkerCommand::SpawnTask(t)) => {
                if empty {
                    self.current_task = 0;
                }
                self.tasks.push(t);
                false
            },
            Some(WorkerCommand::Die) => {
                self.alive = false;
                false
            },
            None => {
                if empty {
                    self.current_task = 0;
                }
                empty
            },
        }
    }

    /// Removing the current task can be done: it is one of the worker's.
    pub open spec fn can_remove_spec(&self) -> bool {
        self@.current_task < self@.tasks.len()
    }

    /// Removes the finished current task, queues the report that it
    /// finished and moves on to the task that followed it, wrapping to the
    /// first (`true`: no task is left; wait for a command).
    pub fn remove_current_task(&mut self) -> (wait: bool)
        requires
            old(self).can_remove_spec(),
        ensures
            ({
                let o = old(self)@;
                let tasks = o.tasks.remove(o.current_task as int);
                let outbox = o.outbox.push(WorkerReport::Finsihed(o.id));
                &&& wait == (tasks.len() == 0)
                &&& wait ==> final(self)@ == (WorkerView { tasks: tasks, outbox: outbox, current_task: 0, ..o })
                &&& !wait ==> final(self)@ == (WorkerView {
                    tasks: tasks,
                    outbox: outbox,
                    current_task: (o.current_task as int % tasks.len() as int) as usize,
                    ..o
                })
                &&& !wait ==> final(self)@.inv()
            }),
    {
        let i = self.current_task;
        self.tasks.remove(i);
        let n = self.tasks.len();
        // The index before the step to the next task: one back, cyclically.
        self.current_task = if n <= 1 {
            0
        } else if i == 0 {
            n - 1
        } else {
            i - 1
        };
        self.outbox.push(WorkerReport::Finsihed(self.id));
        proof {
            assert(self.tasks@.len() == n);
            if n > 0 {
                let prev = self.current_task as int;
                let ni = n as int;
                let ii = i as int;
                assert((prev + 1) % ni == ii % ni) by (nonlinear_arith)
                    requires
                        ni > 0,
                        0 <= ii <= ni,
                        ni <= 1 ==> prev == 0,
                        ni > 1 && ii == 0 ==> prev == ni - 1,
                        ni > 1 && ii > 0 ==> prev == ii - 1,
                ;
            }
        }
        self.next_task()
    }

    /// Queues the report that the worker has stopped.
    pub fn shutdown(&mut self)
        ensures
            final(self)@ == (WorkerView { outbox: old(self)@.outbox.push(WorkerReport::Dead(old(self)@.id)), ..old(self)@ }),
    {
        self.outbox.push(WorkerReport::Dead(self.id));
    }

    /// `run` can take this status of the current task without panicking.
    pub open spec fn can_run_spec(&self, status: TaskStatus) -> bool {
        &&& self@.current_task < self@.tasks.len()
        &&& (status is Running || status is Spawning) ==> self@.rewrites < u32::MAX
        &&& status is Dead ==> self.can_remove_spec()
    }

    /// Whether `run` may be called with `status`.
    pub fn can_run(&self, status: &TaskStatus) -> (b: bool)
        ensures
            b == self.can_run_spec(*status),
    {
        if self.current_task >= self.tasks.len() {
            return false;
        }
        match status {
            TaskStatus::Running | TaskStatus::Spawning(_) => self.rewrites < u32::MAX,
            TaskStatus::Dead | TaskStatus::Yielded => true,
        }
    }

    /// One turn of the worker's main loop, given the status of the step the
    /// current task just took: a task that went on counts a rewrite, a dead
    /// one is removed, a yielding one hands over to the next, and a spawned
    /// task is queued for the scheduler. `true`: wait for a command.
    pub fn run(&mut self, status: TaskStatus) -> (wait: bool)
        requires
            old(self).can_run_spec(status),
        ensures
            ({
                let o = old(self)@;
                let ticked = if o.rewrites + 1 == o.rewrite_quota { 0 } else { (o.rewrites + 1) as u32 };
                match status {
                    TaskStatus::Running => !wait && final(self)@ == (WorkerView { rewrites: ticked, ..o }),
                    TaskStatus::Spawning(t) => !wait && final(self)@ == (WorkerView {
                        rewrites: ticked,
                        outbox: o.outbox.push(WorkerReport::SpawnTask(t)),
                        ..o
                    }),
                    TaskStatus::Yielded => !wait && final(self)@ == o.at(
                        ((o.current_task + 1) % (o.tasks.len() as int)) as usize,
                    ),
                    TaskStatus::Dead => {
                        let tasks = o.tasks.remove(o.current_task as int);
                        let outbox = o.outbox.push(WorkerReport::Finsihed(o.id));
                        &&& wait == (tasks.len() == 0)
                        &&& wait ==> final(self)@ == (WorkerView { tasks: tasks, outbox: outbox, current_task: 0, ..o })
                        &&& !wait ==> final(self)@ == (WorkerView {
                            tasks: tasks,
                            outbox: outbox,
                            current_task: (o.current_task as int % tasks.len() as int) as usize,
                            ..o
                        })
                    },
                }
            }),
            final(self)@.outbox == old(self)@.outbox + turn_report(old(self)@.id, status),
            final(self)@.id == old(self)@.id,
            old(self)@.inv() && !wait ==> final(self)@.inv(),
    {
        proof {
            assert(self.tasks@.len() == self.tasks.len());
        }
        match status {
            TaskStatus::Running => {
                self.tick_task();
                false
            },
            TaskStatus::Dead => self.remove_current_task(),
            TaskStatus::Yielded => self.next_task(),
            TaskStatus::Spawning(t) => {
                self.outbox.push(WorkerReport::SpawnTask(t));
                self.tick_task();
                false
            },
        }
    }
}

} // verus!

//! The constant table that all tasks share, and the scheduler's bookkeeping
//! of workers and tasks.
use vstd::prelude::*;
use std::sync::Arc;

use crate::op::{u32_below, ConstRef};
use crate::task::{Code, Task};
use crate::worker::{Worker, WorkerHandle, WorkerId, WorkerReport, WorkerView};

verus! {

/// All constant data needed at run time: named entry points and the raw
/// bytes that hold code chunks (a little-endian `u32` length followed by
/// that many bytes of code).
pub struct ConstantTable {
    pub names: Vec<(String, ConstRef)>,
    pub constants: Vec<u8>,
}

/// The references of the entries of `names` that are called `main`, in order.
pub open spec fn main_refs(names: Seq<(String, ConstRef)>) -> Seq<ConstRef>
    decreases names.len(),
{
    if names.len() == 0 {
        Seq::empty()
    } else {
        let rest = main_refs(names.drop_last());
        if names.last().0@ == "main"@ {
            rest.push(names.last().1)
        } else {
            rest
        }
    }
}

impl ConstantTable {
    /// The length field of the chunk at `idx`.
    pub open spec fn chunk_len(&self, idx: int) -> int {
        u32_below(self.constants@, idx + 4)
    }

    /// A whole chunk (length field and contents) lies at `idx`.
    pub open spec fn has_chunk_at(&self, idx: int) -> bool {
        &&& 0 <= idx < self.constants@.len()
        &&& idx + 4 <= self.constants@.len()
        &&& idx + 4 + self.chunk_len(idx) <= self.constants@.len()
    }

    /// The contents of the chunk at `idx`.
    pub open spec fn chunk(&self, idx: int) -> Seq<u8> {
        self.constants@.subrange(idx + 4, idx + 4 + self.chunk_len(idx))
    }

    /// Whether a whole chunk lies at `idx`.
    pub fn has_chunk(&self, idx: usize) -> (b: bool)
        ensures
            b == self.has_chunk_at(idx as int),
    {
        let len = self.constants.len();
        if idx >= len || len - idx < 4 {
            return false;
        }
        let size = self.chunk_size(idx);
        (size as usize) <= len - idx - 4
    }

    /// Reads the length field of the chunk at `idx`.
    fn chunk_size(&self, idx: usize) -> (size: u32)
        requires
            idx + 4 <= self.constants@.len(),
        ensures
            size == self.chunk_len(idx as int),
    {
        let c = &self.constants;
        proof {
            assert(c@.len() == c.len());
        }
        c[idx] as u32 + (c[idx + 1] as u32) * 256 + (c[idx + 2] as u32) * 65536 + (c[idx + 3] as u32) * 16777216
    }

    /// The contents of the chunk at `idx`.
    pub fn get_chunk(&self, idx: usize) -> (chunk: &[u8])
        requires
            self.has_chunk_at(idx as int),
        ensures
            chunk@ == self.chunk(idx as int),
    {
        let size = self.chunk_size(idx);
        proof {
            assert(self.constants@.len() == self.constants.len());
        }
        let low = idx + 4;
        let high = idx + 4 + (size as usize);
        vstd::slice::slice_subrange(self.constants.as_slice(), low, high)
    }

    /// The chunk at `idx` as a code stack.
    pub fn get_code(&self, idx: usize) -> (code: Code)
        requires
            self.has_chunk_at(idx as int),
        ensures
            code@ == self.chunk(idx as int),
    {
        let code_bytes = self.get_chunk(idx);
        Code::new(vstd::slice::slice_to_vec(code_bytes))
    }

    /// There is exactly one entry named `main`, and a whole chunk lies at it.
    pub open spec fn has_main_spec(&self) -> bool {
        &&& main_refs(self.names@).len() == 1
        &&& self.has_chunk_at(main_refs(self.names@)[0] as int)
    }

    /// The references of the entries named `main`, in order.
    fn main_entries(&self) -> (refs: Vec<ConstRef>)
        ensures
            refs@ == main_refs(self.names@),
    {
        let main_name: String = "main".to_owned();
        let mut refs: Vec<ConstRef> = Vec::new();
        let n = self.names.len();
        let mut i: usize = 0;
        while i < n
            invariant
                n == self.names@.len(),
                i <= n,
                main_name@ == "main"@,
                refs@ == main_refs(self.names@.take(i as int)),
            decreases n - i,
        {
            proof {
                assert(self.names@.take(i + 1).drop_last() =~= self.names@.take(i as int));
            }
            if self.names[i].0 == main_name {
                refs.push(self.names[i].1);
            }
            i = i + 1;
        }
        proof {
            assert(self.names@.take(n as int) =~= self.names@);
        }
        refs
    }

    /// Whether `main` may be called.
    pub fn has_main(&self) -> (b: bool)
        ensures
            b == self.has_main_spec(),
    {
        let refs = self.main_entries();
        refs.len() == 1 && self.has_chunk(refs[0])
    }

    /// The code of the one entry named `main`.
    pub fn main(&self) -> (code: Code)
        requires
            self.has_main_spec(),
        ensures
            code@ == self.chunk(main_refs(self.names@)[0] as int),
    {
        let mut mmain = self.main_entries();
        let r = mmain.pop().unwrap();
        self.get_code(r)
    }
}

/// `Arc::clone`: another pointer to the same table. The contract claims that
/// the new pointer refers to the same table, which is what std documents.
#[verifier::external_body]
pub(crate) fn share_table(table: &Arc<ConstantTable>) -> (shared: Arc<ConstantTable>)
    ensures
        shared == *table,
{
    Arc::clone(table)
}

/// The number of tasks that the workers in `ws` hold together.
pub open spec fn total_tasks(ws: Seq<WorkerHandle>) -> int
    decreases ws.len(),
{
    if ws.len() == 0 {
        0
    } else {
        total_tasks(ws.drop_last()) + ws.last().task_count
    }
}

/// Worker `i` of `ws` holds the fewest tasks, and no worker before it holds
/// as few.
pub open spec fn first_least_loaded(ws: Seq<WorkerHandle>, i: int) -> bool {
    &&& 0 <= i < ws.len()
    &&& forall|j: int| 0 <= j < ws.len() ==> ws[i].task_count <= #[trigger] ws[j].task_count
    &&& forall|j: int| 0 <= j < i ==> ws[i].task_count < #[trigger] ws[j].task_count
}

/// The state of a scheduler.
pub struct SchedulerView {
    pub workers: Seq<WorkerHandle>,
    pub task_count: u32,
    pub pool_max_size: u32,
    pub rewrite_quota: u32,
}

/// A freshly made worker with id `id`.
pub open spec fn fresh_worker(id: WorkerId, quota: u32) -> WorkerView {
    WorkerView {
        id: id,
        rewrites: 0,
        rewrite_quota: quota,
        tasks: Seq::empty(),
        alive: true,
        current_task: 0,
        outbox: Seq::empty(),
    }
}

impl SchedulerView {
    /// Each worker's id is its position, and the scheduler's task count is
    /// the sum of its workers' task counts.
    pub open spec fn wf(self) -> bool {
        &&& self.workers.len() <= u32::MAX
        &&& forall|i: int| 0 <= i < self.workers.len() ==> #[trigger] self.workers[i].id == i
        &&& self.task_count == total_tasks(self.workers)
    }

    /// The next task goes to a new worker: there is none yet, or the pool
    /// is not full.
    pub open spec fn grows(self) -> bool {
        (self.workers.len() as u32) == 0 || (self.workers.len() as u32) < self.pool_max_size
    }

    /// The scheduler with one more worker, which has no task yet.
    pub open spec fn with_new_worker(self) -> SchedulerView {
        SchedulerView {
            workers: self.workers.push(WorkerHandle { id: self.workers.len() as u32, task_count: 0 }),
            ..self
        }
    }

    /// The scheduler once worker `i` got one more task.
    pub open spec fn with_task_at(self, i: int) -> SchedulerView {
        let h = self.workers[i];
        SchedulerView {
            workers: self.workers.update(i, WorkerHandle { task_count: (h.task_count + 1) as u32, ..h }),
            task_count: (self.task_count + 1) as u32,
            ..self
        }
    }

    /// The scheduler once a new task has been placed (see `placement`).
    pub open spec fn after_spawn(self) -> SchedulerView {
        self.placement().1.with_task_at(self.placement().0)
    }

    /// The scheduler once worker `wid` reported a finished task.
    pub open spec fn after_finish(self, wid: WorkerId) -> SchedulerView {
        if wid < self.workers.len() {
            let h = self.workers[wid as int];
            SchedulerView {
                workers: self.workers.update(wid as int, WorkerHandle { task_count: (h.task_count - 1) as u32, ..h }),
                task_count: (self.task_count - 1) as u32,
                ..self
            }
        } else {
            self
        }
    }

    /// Where the next task goes: `(position of the worker, grown scheduler)`.
    pub open spec fn placement(self) -> (int, SchedulerView) {
        if self.grows() {
            (self.workers.len() as int, self.with_new_worker())
        } else {
            (choose|i: int| first_least_loaded(self.workers, i), self)
        }
    }
}

proof fn lemma_total_push(ws: Seq<WorkerHandle>, h: WorkerHandle)
    ensures
        total_tasks(ws.push(h)) == total_tasks(ws) + h.task_count,
{
    assert(ws.push(h).drop_last() =~= ws);
}

proof fn lemma_total_nonneg(ws: Seq<WorkerHandle>)
    ensures
        total_tasks(ws) >= 0,
    decreases ws.len(),
{
    if ws.len() > 0 {
        lemma_total_nonneg(ws.drop_last());
    }
}

proof fn lemma_total_update(ws: Seq<WorkerHandle>, i: int, h: WorkerHandle)
    requires
        0 <= i < ws.len(),
    ensures
        total_tasks(ws.update(i, h)) == total_tasks(ws) - ws[i].task_count + h.task_count,
        ws[i].task_count <= total_tasks(ws),
    decreases ws.len(),
{
    if i == ws.len() - 1 {
        lemma_total_nonneg(ws.drop_last());
        assert(ws.update(i, h).drop_last() =~= ws.drop_last());
    } else {
        assert(ws.update(i, h).drop_last() =~= ws.drop_last().update(i, h));
        lemma_total_update(ws.drop_last(), i, h);
    }
}

proof fn lemma_least_loaded_unique(ws: Seq<WorkerHandle>, i: int, k: int)
    requires
        first_least_loaded(ws, i),
        first_least_loaded(ws, k),
    ensures
        i == k,
{
    if i < k {
        assert(ws[k].task_count < ws[i].task_count);
    } else if k < i {
        assert(ws[i].task_count < ws[k].task_count);
    }
}

proof fn lemma_least_loaded_exists(ws: Seq<WorkerHandle>)
    requires
        ws.len() > 0,
    ensures
        exists|i: int| first_least_loaded(ws, i),
    decreases ws.len(),
{
    if ws.len() == 1 {
        assert(first_least_loaded(ws, 0));
    } else {
        let d = ws.drop_last();
        lemma_least_loaded_exists(d);
        let k = choose|k: int| first_least_loaded(d, k);
        let last = ws.len() - 1;
        if ws[last].task_count < ws[k].task_count {
            assert forall|j: int| 0 <= j < last implies ws[last].task_count < #[trigger] ws[j].task_count by {
                assert(d[j] == ws[j]);
            }
            assert(first_least_loaded(ws, last));
        } else {
            assert forall|j: int| 0 <= j < ws.len() implies ws[k].task_count <= #[trigger] ws[j].task_count by {
                if j < last {
                    assert(d[j] == ws[j]);
                }
            }
            assert forall|j: int| 0 <= j < k implies ws[k].task_count < #[trigger] ws[j].task_count by {
                assert(d[j] == ws[j]);
            }
            assert(first_least_loaded(ws, k));
        }
    }
}

/// Finishing the task that was just spawned gives the counts back: the
/// scheduler is as it was, but for a worker made for that task.
pub proof fn lemma_finish_undoes_spawn(s: SchedulerView)
    requires
        s.wf(),
        s.task_count < u32::MAX,
    ensures
        s.after_spawn().after_finish(s.placement().0 as u32) == s.placement().1,
        s.after_spawn().wf(),
{
    let (i, g) = s.placement();
    if s.grows() {
        lemma_total_push(s.workers, WorkerHandle { id: s.workers.len() as u32, task_count: 0 });
    } else {
        lemma_least_loaded_exists(s.workers);
    }
    assert(0 <= i < g.workers.len());
    assert(g.workers[i].id == i);
    let h = g.workers[i];
    let h1 = WorkerHandle { task_count: (h.task_count + 1) as u32, ..h };
    lemma_total_update(g.workers, i, h1);
    let a = s.after_spawn();
    assert(a.workers[i] == h1);
    assert(a.workers.update(i, h) =~= g.workers);
    assert(forall|j: int| 0 <= j < a.workers.len() ==> #[trigger] a.workers[j].id == j) by {
        assert(forall|j: int| 0 <= j < g.workers.len() ==> #[trigger] g.workers[j].id == j);
    }
}

/// Keeps track of the workers: which exist and how many tasks each has.
pub struct Scheduler {
    worker_handles: Vec<WorkerHandle>,
    task_count: u32,
    pool_max_size: u32,
    rewrite_quota: u32,
}

impl View for Scheduler {
    type V = SchedulerView;

    closed spec fn view(&self) -> SchedulerView {
        SchedulerView {
            workers: self.worker_handles@,
            task_count: self.task_count,
            pool_max_size: self.pool_max_size,
            rewrite_quota: self.rewrite_quota,
        }
    }
}

impl Scheduler {
    pub fn new(pool_size: u32, rwq: u32) -> (s: Scheduler)
        ensures
            s@ == (SchedulerView {
                workers: Seq::empty(),
                task_count: 0,
                pool_max_size: pool_size,
                rewrite_quota: rwq,
            }),
            s@.wf(),
    {
        Scheduler { worker_handles: Vec::new(), task_count: 0, pool_max_size: pool_size, rewrite_quota: rwq }
    }

    /// Number of tasks that have not finished yet.
    pub fn task_count(&self) -> (n: u32)
        ensures
            n == self@.task_count,
    {
        self.task_count
    }

    /// Registers a new worker, with the next id, and gives it out to be run.
    pub fn spawn_worker(&mut self) -> (worker: Worker)
        ensures
            final(self)@ == old(self)@.with_new_worker(),
            worker@ == fresh_worker(old(self)@.workers.len() as u32, old(self)@.rewrite_quota),
            old(self)@.wf() && old(self)@.workers.len() < u32::MAX ==> final(self)@.wf(),
    {
        let wid = self.worker_handles.len() as WorkerId;
        let worker = Worker::new(wid, self.rewrite_quota);
        self.worker_handles.push(WorkerHandle { id: wid, task_count: 0 });
        proof {
            lemma_total_push(old(self)@.workers, WorkerHandle { id: wid, task_count: 0 });
        }
        worker
    }

    /// Chooses the worker for the next task: a new one until the pool is
    /// full (the new worker is handed out to be run), otherwise the first
    /// of those with the fewest tasks.
    pub fn get_available_worker(&mut self) -> (r: (usize, Option<Worker>))
        ensures
            r.0 == old(self)@.placement().0,
            final(self)@ == old(self)@.placement().1,
            old(self)@.grows() ==> (r.1 matches Some(w) && w@ == fresh_worker(
                old(self)@.workers.len() as u32,
                old(self)@.rewrite_quota,
            )),
            !old(self)@.grows() ==> r.1 is None && first_least_loaded(old(self)@.workers, r.0 as int),
            r.0 < final(self)@.workers.len(),
            old(self)@.wf() ==> final(self)@.wf(),
    {
        let wc = self.worker_handles.len() as u32;
        if wc == 0 || wc < self.pool_max_size {
            proof {
                assert(self.worker_handles@.len() == self.worker_handles.len());
            }
            let idx = self.worker_handles.len();
            let w = self.spawn_worker();
            (idx, Some(w))
        } else {
            let n = self.worker_handles.len();
            let mut best: usize = 0;
            let mut i: usize = 1;
            while i < n
                invariant
                    n == self.worker_handles@.len(),
                    0 < n,
                    best < i <= n,
                    forall|j: int| 0 <= j < i ==> self.worker_handles@[best as int].task_count <= #[trigger] self.worker_handles@[j].task_count,
                    forall|j: int| 0 <= j < best ==> self.worker_handles@[best as int].task_count < #[trigger] self.worker_handles@[j].task_count,
                decreases n - i,
            {
                if self.worker_handles[i].task_count < self.worker_handles[best].task_count {
                    best = i;
                }
                i = i + 1;
            }
            proof {
                assert(first_least_loaded(self@.workers, best as int));
                let k = choose|k: int| first_least_loaded(self@.workers, k);
                lemma_least_loaded_unique(self@.workers, best as int, k);
            }
            (best, None)
        }
    }

    /// Gives a new task to a worker (see `get_available_worker`) and counts
    /// it; the result says which worker, and hands out a new one to be run.
    pub fn spawn_task(&mut self) -> (r: (usize, Option<Worker>))
        requires
            old(self)@.wf(),
            old(self)@.task_count < u32::MAX,
        ensures
            r.0 == old(self)@.placement().0,
            final(self)@ == old(self)@.after_spawn(),
            old(self)@.grows() ==> (r.1 matches Some(w) && w@ == fresh_worker(
                old(self)@.workers.len() as u32,
                old(self)@.rewrite_quota,
            )),
            !old(self)@.grows() ==> r.1 is None,
            final(self)@.wf(),
    {
        let (idx, worker) = self.get_available_worker();
        let mut h = self.worker_handles[idx];
        proof {
            lemma_total_update(self@.workers, idx as int, h);
        }
        h.task_count = h.task_count + 1;
        self.worker_handles.set(idx, h);
        self.task_count = self.task_count + 1;
        proof {
            lemma_total_update(old(self)@.placement().1.workers, idx as int, h);
        }
        (idx, worker)
    }

    /// Counts a finished task of worker `wid`.
    pub fn worker_finished(&mut self, wid: WorkerId)
        requires
            old(self)@.wf(),
            wid < old(self)@.workers.len() ==> old(self)@.workers[wid as int].task_count > 0,
        ensures
            final(self)@ == old(self)@.after_finish(wid),
            final(self)@.wf(),
    {
        let n = self.worker_handles.len();
        let mut i: usize = 0;
        while i < n
            invariant
                n == self.worker_handles@.len(),
                i <= n,
                old(self)@.wf(),
                self.pool_max_size == old(self).pool_max_size,
                self.rewrite_quota == old(self).rewrite_quota,
                wid < n ==> old(self)@.workers[wid as int].task_count > 0,
                forall|j: int| 0 <= j < n ==> #[trigger] self.worker_handles@[j].id == j,
                self@.wf(),
                (wid < i) ==> self@ == old(self)@.after_finish(wid),
                !(wid < i) ==> self@ == old(self)@,
            decreases n - i,
        {
            let mut h = self.worker_handles[i];
            if h.id == wid {
                proof {
                    assert(i == wid);
                    lemma_total_update(self@.workers, i as int, h);
                }
                h.task_count = h.task_count - 1;
                self.worker_handles.set(i, h);
                self.task_count = self.task_count - 1;
                proof {
                    lemma_total_update(old(self)@.workers, i as int, h);
                }
            }
            i = i + 1;
        }
    }

    /// The scheduler can take `report` without panicking: a worker that
    /// stopped is a crash, and counts must not run over or under.
    pub open spec fn can_handle_spec(&self, report: WorkerReport) -> bool {
        match report {
            WorkerReport::Dead(_) => false,
            WorkerReport::Finsihed(wid) => wid < self@.workers.len() ==> self@.workers[wid as int].task_count > 0,
            WorkerReport::SpawnTask(_) => self@.task_count < u32::MAX,
        }
    }

    /// Whether `handle_report` may be called with `report`.
    pub fn can_handle(&self, report: &WorkerReport) -> (b: bool)
        requires
            self@.wf(),
        ensures
            b == self.can_handle_spec(*report),
    {
        match report {
            WorkerReport::Dead(_) => false,
            WorkerReport::Finsihed(wid) => {
                let w = *wid as usize;
                w >= self.worker_handles.len() || self.worker_handles[w].task_count > 0
            },
            WorkerReport::SpawnTask(_) => self.task_count < u32::MAX,
        }
    }

    /// Takes a report from a worker: a finished task is counted off; a task
    /// to spawn is placed (`spawn_task`), and the result says where it goes
    /// together with the task and any new worker to run first.
    pub fn handle_report(&mut self, report: WorkerReport) -> (r: Option<(usize, Option<Worker>, Task)>)
        requires
            old(self)@.wf(),
            old(self).can_handle_spec(report),
        ensures
            final(self)@.wf(),
            match report {
                WorkerReport::Finsihed(wid) => r is None && final(self)@ == old(self)@.after_finish(wid),
                WorkerReport::SpawnTask(t) => (r matches Some((i, w, t2)) && t2 == t
                    && i == old(self)@.placement().0
                    && final(self)@ == old(self)@.after_spawn()
                    && (old(self)@.grows() <==> w is Some)
                    && (w matches Some(nw) ==> nw@ == fresh_worker(
                        old(self)@.workers.len() as u32,
                        old(self)@.rewrite_quota,
                    ))),
                WorkerReport::Dead(_) => false,
            },
    {
        match report {
            WorkerReport::Finsihed(wid) => {
                self.worker_finished(wid);
                None
            },
            WorkerReport::SpawnTask(t) => {
                let (i, w) = self.spawn_task();
                Some((i, w, t))
            },
            WorkerReport::Dead(_) => {
                proof {
                    assert(false);
                }
                None
            },
        }
    }

    /// Hands out all workers (in the order they were made), leaving none.
    pub fn shutdown_workers(&mut self) -> (workers: Vec<WorkerHandle>)
        ensures
            workers@ == old(self)@.workers,
            final(self)@ == (SchedulerView { workers: Seq::empty(), ..old(self)@ }),
            old(self)@.task_count == 0 ==> final(self)@.wf(),
    {
        let mut workers = Vec::new();
        std::mem::swap(&mut workers, &mut self.worker_handles);
        workers
    }
}

/// Settings of a runtime: how many workers at most, and the rewrite quota
/// of each.
pub struct RuntimeSettings {
    pub worker_pool_size: u32,
    pub rewrite_quota: u32,
}

impl RuntimeSettings {
    /// The settings for a machine with `cpus` logical cores: a worker for
    /// every core but one, and a rewrite quota of 32.
    pub fn for_cpus(cpus: usize) -> (s: RuntimeSettings)
        requires
            cpus >= 1,
        ensures
            s.worker_pool_size == (cpus - 1) as u32,
            s.rewrite_quota == 32,
    {
        RuntimeSettings { worker_pool_size: (cpus - 1) as u32, rewrite_quota: 32 }
    }
}

impl Default for RuntimeSettings {
    /// The settings for this machine (see `for_cpus`).
    fn default() -> (s: RuntimeSettings)
        ensures
            s.rewrite_quota == 32,
    {
        RuntimeSettings::for_cpus(logical_cpus())
    }
}

/// `num_cpus::get`: the number of logical CPUs available to this process.
/// The crate documents (and its code ensures) that it is at least 1; the
/// count itself depends on the machine, so nothing more is claimed.
#[verifier::external_body]
fn logical_cpus() -> (n: usize)
    ensures
        n >= 1,
{
    num_cpus::get()
}

/// Everything needed at run time: the scheduler and the constants that all
/// tasks share.
pub struct Runtime {
    pub scheduler: Scheduler,
    pub constants: Arc<ConstantTable>,
}

impl Runtime {
    pub fn new(settings: RuntimeSettings, ct: ConstantTable) -> (rt: Runtime)
        ensures
            rt.scheduler@ == (SchedulerView {
                workers: Seq::empty(),
                task_count: 0,
                pool_max_size: settings.worker_pool_size,
                rewrite_quota: settings.rewrite_quota,
            }),
            rt.scheduler@.wf(),
            *rt.constants == ct,
    {
        let scheduler = Scheduler::new(settings.worker_pool_size, settings.rewrite_quota);
        Runtime { scheduler: scheduler, constants: Arc::new(ct) }
    }

    /// Makes the task that runs `main` and places it (see
    /// `Scheduler::spawn_task`): the result says which worker gets it, any
    /// new worker to run first, and the task.
    pub fn start(&mut self) -> (r: (usize, Option<Worker>, Task))
        requires
            old(self).constants.has_main_spec(),
            old(self).scheduler@.wf(),
            old(self).scheduler@.task_count < u32::MAX,
        ensures
            r.2.code@ == old(self).constants.chunk(main_refs(old(self).constants.names@)[0] as int),
            r.2.stage@ == crate::task::StageView::fresh(),
            r.2.constants == old(self).constants,
            final(self).constants == old(self).constants,
            r.0 == old(self).scheduler@.placement().0,
            final(self).scheduler@ == old(self).scheduler@.after_spawn(),
            old(self).scheduler@.grows() <==> r.1 is Some,
            final(self).scheduler@.wf(),
    {
        let task = Task::new(self.constants.main(), share_table(&self.constants));
        let (i, w) = self.scheduler.spawn_task();
        (i, w, task)
    }
}

proof fn lemma_no_main(names: Seq<(String, ConstRef)>)
    requires
        forall|j: int| 0 <= j < names.len() ==> (#[trigger] names[j]).0@ != "main"@,
    ensures
        main_refs(names) == Seq::<ConstRef>::empty(),
    decreases names.len(),
{
    if names.len() > 0 {
        let d = names.drop_last();
        assert forall|j: int| 0 <= j < d.len() implies (#[trigger] d[j]).0@ != "main"@ by {
            assert(d[j] == names[j]);
        }
        lemma_no_main(d);
        assert(names.last() == names[names.len() - 1]);
    }
}

/// `main` finds the entry called `main`, wherever it stands: when entry
/// `k` is the only one with that name, the references named `main` are
/// exactly its reference, so `main()` loads the chunk at `names[k].1`.
pub proof fn lemma_main_is_the_entry_named_main(names: Seq<(String, ConstRef)>, k: int)
    requires
        0 <= k < names.len(),
        names[k].0@ == "main"@,
        forall|j: int| 0 <= j < names.len() && j != k ==> (#[trigger] names[j]).0@ != "main"@,
    ensures
        main_refs(names) == seq![names[k].1],
    decreases names.len(),
{
    let d = names.drop_last();
    let last = names.len() - 1;
    assert(names.last() == names[last]);
    if k == last {
        assert forall|j: int| 0 <= j < d.len() implies (#[trigger] d[j]).0@ != "main"@ by {
            assert(d[j] == names[j]);
        }
        lemma_no_main(d);
        assert(main_refs(names) =~= seq![names[k].1]);
    } else {
        assert(d[k] == names[k]);
        assert forall|j: int| 0 <= j < d.len() && j != k implies (#[trigger] d[j]).0@ != "main"@ by {
            assert(d[j] == names[j]);
        }
        lemma_main_is_the_entry_named_main(d, k);
    }
}

/// While the pool holds no worker or fewer than its maximum, the next task
/// goes to a new worker at the end; once it is full, to one that exists.
pub proof fn lemma_pool_grows_until_full(s: SchedulerView)
    requires
        s.wf(),
        s.task_count < u32::MAX,
    ensures
        s.workers.len() == 0 || s.workers.len() < s.pool_max_size ==> s.placement().0 == s.workers.len()
            && s.after_spawn().workers.len() == s.workers.len() + 1,
        !(s.workers.len() == 0 || s.workers.len() < s.pool_max_size) ==> s.placement().0 < s.workers.len()
            && s.after_spawn().workers.len() == s.workers.len(),
{
    if !(s.workers.len() == 0 || s.workers.len() < s.pool_max_size) {
        lemma_least_loaded_exists(s.workers);
    }
}

/// Spawning `k` tasks one after another on a fresh scheduler with a pool
/// of `p` workers: while `k <= p`, each went to a worker of its own, so
/// there are `k` workers and the last task went to worker `k - 1`.
pub open spec fn spawned(s: SchedulerView, k: nat) -> SchedulerView
    decreases k,
{
    if k == 0 {
        s
    } else {
        spawned(s, (k - 1) as nat).after_spawn()
    }
}

/// Each of the first `pool_max_size` tasks placed on a fresh scheduler gets
/// a new worker of its own.
pub proof fn lemma_first_tasks_get_own_workers(p: u32, q: u32, k: nat)
    requires
        1 <= k <= p,
    ensures
        ({
            let s0 = SchedulerView { workers: Seq::empty(), task_count: 0, pool_max_size: p, rewrite_quota: q };
            &&& spawned(s0, k).workers.len() == k
            &&& spawned(s0, k).wf()
            &&& spawned(s0, k).task_count == k
            &&& spawned(s0, k).pool_max_size == p
            &&& spawned(s0, (k - 1) as nat).placement().0 == k - 1
            &&& forall|i: int| 0 <= i < k ==> #[trigger] spawned(s0, k).workers[i].task_count == 1
        }),
    decreases k,
{
    let s0 = SchedulerView { workers: Seq::empty(), task_count: 0, pool_max_size: p, rewrite_quota: q };
    let prev = spawned(s0, (k - 1) as nat);
    if k == 1 {
        assert(prev == s0);
        assert(s0.wf());
    } else {
        lemma_first_tasks_get_own_workers(p, q, (k - 1) as nat);
    }
    assert(prev.wf());
    assert(prev.workers.len() == k - 1);
    assert(prev.task_count == k - 1);
    assert(prev.pool_max_size == p);
    assert(prev.workers.len() as u32 == k - 1);
    assert(prev.grows());
    lemma_pool_grows_until_full(prev);
    lemma_finish_undoes_spawn(prev);
    let g = prev.with_new_worker();
    assert(prev.placement().1 == g);
    let a = spawned(s0, k);
    assert(a == prev.after_spawn());
    assert forall|i: int| 0 <= i < k implies #[trigger] a.workers[i].task_count == 1 by {
        if i < k - 1 {
            assert(a.workers[i] == prev.workers[i]);
        }
    }
}

} // verus!

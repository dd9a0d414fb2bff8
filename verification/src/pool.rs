//! A fixed-size worker pool: job submission, FIFO delivery, and orderly
//! shutdown.
//!
//! Jobs are identified by plain `u64` values; the runtime that owns the real
//! threads maps each identifier to the closure it stands for. The pool model
//! tracks the queue of pending jobs, the log of completed jobs in completion
//! order, and the lifecycle state of every worker, so that the delivery
//! guarantees (every accepted job runs exactly once; with one worker,
//! completion order equals submission order; nothing runs after shutdown)
//! are stated and proved rather than assumed.

use vstd::prelude::*;

verus! {

/// The lifecycle of one worker: idle and waiting for a job (`Running`),
/// running a job body (`Executing`), or exited (`Terminated`).
#[derive(Clone, Copy, Debug, PartialEq, Eq, Structural)]
pub enum WorkerState {
    Running,
    Executing,
    Terminated,
}

/// What a worker observes at its receiving end: the next job arrived, the
/// sending side was closed, or the job it was running finished.
#[derive(Clone, Copy, Debug, PartialEq, Eq, Structural)]
pub enum WorkerEvent {
    JobReceived,
    ChannelClosed,
    JobCompleted,
}

/// What a worker does next: run the job it just received, go back to waiting
/// for the next job, or exit its loop.
#[derive(Clone, Copy, Debug, PartialEq, Eq, Structural)]
pub enum WorkerAction {
    RunJob,
    AwaitNext,
    Exit,
}

/// One worker of the pool: a stable identity assigned at construction, and
/// the state its loop is in.
pub struct Worker {
    pub id: usize,
    pub state: WorkerState,
}

/// The events a worker's loop can observe in each state: while `Running` it
/// either receives a job or sees the channel closed; while `Executing` the
/// only thing that can happen is that the job finishes; a `Terminated`
/// worker observes nothing.
pub open spec fn valid_worker_event(s: WorkerState, e: WorkerEvent) -> bool {
    match s {
        WorkerState::Running => e is JobReceived || e is ChannelClosed,
        WorkerState::Executing => e is JobCompleted,
        WorkerState::Terminated => false,
    }
}

/// The worker state machine: receiving a job starts execution, a closed
/// channel ends the loop, and a finished job returns the worker to waiting.
pub open spec fn spec_worker_step(s: WorkerState, e: WorkerEvent) -> (WorkerState, WorkerAction) {
    match (s, e) {
        (WorkerState::Running, WorkerEvent::JobReceived) => (
            WorkerState::Executing,
            WorkerAction::RunJob,
        ),
        (WorkerState::Running, WorkerEvent::ChannelClosed) => (
            WorkerState::Terminated,
            WorkerAction::Exit,
        ),
        (WorkerState::Executing, WorkerEvent::JobCompleted) => (
            WorkerState::Running,
            WorkerAction::AwaitNext,
        ),
        _ => (s, WorkerAction::AwaitNext),
    }
}

/// One step of a worker's loop: given the state the worker is in and the
/// event it observed, decide the next state and the action to take. The
/// runtime that owns the real thread performs the action and hands the next
/// event back.
pub fn worker_step(s: WorkerState, e: WorkerEvent) -> (r: (WorkerState, WorkerAction))
    requires
        valid_worker_event(s, e),
    ensures
        r == spec_worker_step(s, e),
{
    match (s, e) {
        (WorkerState::Running, WorkerEvent::JobReceived) => (
            WorkerState::Executing,
            WorkerAction::RunJob,
        ),
        (WorkerState::Running, WorkerEvent::ChannelClosed) => (
            WorkerState::Terminated,
            WorkerAction::Exit,
        ),
        (WorkerState::Executing, WorkerEvent::JobCompleted) => (
            WorkerState::Running,
            WorkerAction::AwaitNext,
        ),
        _ => (s, WorkerAction::AwaitNext),
    }
}

impl Worker {
    /// A fresh worker: it keeps the identity it is given and starts its loop
    /// waiting for a job.
    pub fn new(id: usize) -> (w: Worker)
        ensures
            w.id == id,
            w.state is Running,
    {
        Worker { id, state: WorkerState::Running }
    }
}

/// What submitting one job does to the queue: while the sending side is
/// open the job is appended; once it is closed the job is dropped and the
/// queue is left as it was.
pub open spec fn spec_submit(queue: Seq<u64>, accepting: bool, job: u64) -> Seq<u64> {
    if accepting {
        queue.push(job)
    } else {
        queue
    }
}

/// What submitting a whole sequence of jobs, in order, does to the queue.
pub open spec fn spec_submit_all(queue: Seq<u64>, accepting: bool, jobs: Seq<u64>) -> Seq<u64>
    decreases jobs.len(),
{
    if jobs.len() == 0 {
        queue
    } else {
        spec_submit_all(spec_submit(queue, accepting, jobs[0]), accepting, jobs.drop_first())
    }
}

/// A pool of a fixed number of workers sharing one FIFO job queue.
pub struct ThreadPool {
    workers: Vec<Worker>,
    accepting_jobs: bool,
    pending: Vec<u64>,
    done: Vec<u64>,
}

impl ThreadPool {
    /// How many workers the pool was built with.
    pub closed spec fn worker_count(self) -> nat {
        self.workers@.len()
    }

    /// The identity of the worker at position `i`.
    pub closed spec fn id_of(self, i: int) -> usize {
        self.workers@[i].id
    }

    /// The lifecycle state of the worker at position `i`.
    pub closed spec fn state_of(self, i: int) -> WorkerState {
        self.workers@[i].state
    }

    /// Whether the sending side of the queue is still open.
    pub closed spec fn accepting(self) -> bool {
        self.accepting_jobs
    }

    /// The jobs submitted and accepted but not yet executed, oldest first.
    pub closed spec fn queued(self) -> Seq<u64> {
        self.pending@
    }

    /// The jobs executed so far, in completion order.
    pub closed spec fn completed(self) -> Seq<u64> {
        self.done@
    }

    /// Build a pool of `num_threads` workers: every worker is live and
    /// waiting, the queue is empty, nothing has run, and submissions are
    /// accepted. A size of zero is a caller error and is ruled out.
    pub fn new(num_threads: usize) -> (pool: ThreadPool)
        requires
            num_threads >= 1,
        ensures
            pool.worker_count() == num_threads,
            forall|i: int|
                0 <= i < num_threads ==> pool.id_of(i) == i && pool.state_of(i) is Running,
            pool.accepting(),
            pool.queued() == Seq::<u64>::empty(),
            pool.completed() == Seq::<u64>::empty(),
    {
        let mut workers: Vec<Worker> = Vec::new();
        let mut id: usize = 0;
        while id < num_threads
            invariant
                id <= num_threads,
                workers@.len() == id,
                forall|i: int| 0 <= i < id ==> workers@[i].id == i && workers@[i].state is Running,
            decreases num_threads - id,
        {
            workers.push(Worker::new(id));
            id += 1;
        }
        ThreadPool { workers, accepting_jobs: true, pending: Vec::new(), done: Vec::new() }
    }

    /// Build a pool only when the requested size is at least one; a request
    /// for zero workers yields no pool at all.
    pub fn try_new(num_threads: usize) -> (r: Option<ThreadPool>)
        ensures
            r is Some <==> num_threads >= 1,
            match r {
                Some(pool) => {
                    &&& pool.worker_count() == num_threads
                    &&& forall|i: int|
                        0 <= i < num_threads ==> pool.id_of(i) == i && pool.state_of(
                            i,
                        ) is Running
                    &&& pool.accepting()
                    &&& pool.queued() == Seq::<u64>::empty()
                    &&& pool.completed() == Seq::<u64>::empty()
                },
                None => num_threads == 0,
            },
    {
        if num_threads >= 1 {
            let pool = ThreadPool::new(num_threads);
            proof {
                assert(pool.queued() == Seq::<u64>::empty());
                assert(pool.completed() == Seq::<u64>::empty());
            }
            Some(pool)
        } else {
            None
        }
    }

    /// Submit a job. While the pool is accepting, the job joins the back of
    /// the queue; after shutdown it is dropped without being enqueued. The
    /// call never blocks and never fails, and touches nothing else.
    pub fn execute(&mut self, job: u64)
        ensures
            final(self).queued() == spec_submit(old(self).queued(), old(self).accepting(), job),
            final(self).completed() == old(self).completed(),
            final(self).accepting() == old(self).accepting(),
            final(self).worker_count() == old(self).worker_count(),
            forall|i: int|
                0 <= i < old(self).worker_count() ==> final(self).id_of(i) == old(self).id_of(i)
                    && final(self).state_of(i) == old(self).state_of(i),
    {
        if self.accepting_jobs {
            self.pending.push(job);
        }
    }

    /// One worker's turn at the shared receiving end: take the oldest queued
    /// job and run it. Returns the job that ran, or `None` when the queue
    /// was empty. Jobs leave the queue in the order they joined it.
    pub fn run_pending_job(&mut self) -> (r: Option<u64>)
        ensures
            match r {
                Some(job) => {
                    &&& old(self).queued().len() > 0
                    &&& job == old(self).queued()[0]
                    &&& final(self).queued() == old(self).queued().drop_first()
                    &&& final(self).completed() == old(self).completed().push(job)
                },
                None => {
                    &&& old(self).queued().len() == 0
                    &&& final(self).queued() == old(self).queued()
                    &&& final(self).completed() == old(self).completed()
                },
            },
            final(self).accepting() == old(self).accepting(),
            final(self).worker_count() == old(self).worker_count(),
            forall|i: int|
                0 <= i < old(self).worker_count() ==> final(self).id_of(i) == old(self).id_of(i)
                    && final(self).state_of(i) == old(self).state_of(i),
    {
        if self.pending.len() > 0 {
            let job = self.pending.remove(0);
            self.done.push(job);
            proof {
                assert(final(self).queued() =~= old(self).queued().drop_first());
            }
            Some(job)
        } else {
            None
        }
    }

    /// Orderly shutdown: close the sending side, drain the queue by running
    /// every job still pending, in order, and let every worker observe the
    /// closed channel and terminate. Calling it on an already shut-down pool
    /// changes nothing, since nothing is pending then.
    pub fn shutdown(&mut self)
        ensures
            !final(self).accepting(),
            final(self).completed() == old(self).completed() + old(self).queued(),
            final(self).queued().len() == 0,
            final(self).worker_count() == old(self).worker_count(),
            forall|i: int|
                0 <= i < old(self).worker_count() ==> final(self).id_of(i) == old(self).id_of(i)
                    && final(self).state_of(i) is Terminated,
    {
        self.accepting_jobs = false;
        let ghost queued_at_close = self.pending@;
        let ghost done_at_close = self.done@;
        while self.pending.len() > 0
            invariant
                done_at_close + queued_at_close == self.done@ + self.pending@,
                !self.accepting_jobs,
                self.workers == old(self).workers,
            decreases self.pending.len(),
        {
            let job = self.pending.remove(0);
            self.done.push(job);
            proof {
                assert(done_at_close + queued_at_close =~= self.done@ + self.pending@);
            }
        }
        proof {
            assert(self.done@ =~= done_at_close + queued_at_close);
        }
        let mut terminated: Vec<Worker> = Vec::new();
        let n = self.workers.len();
        let mut i: usize = 0;
        while i < n
            invariant
                i <= n,
                n == self.workers@.len(),
                terminated@.len() == i,
                forall|k: int|
                    0 <= k < i ==> terminated@[k].id == self.workers@[k].id && terminated@[k].state
                        is Terminated,
            decreases n - i,
        {
            let id = self.workers[i].id;
            terminated.push(Worker { id, state: WorkerState::Terminated });
            i += 1;
        }
        self.workers = terminated;
    }

    /// How many workers the pool has.
    pub fn num_workers(&self) -> (n: usize)
        ensures
            n == self.worker_count(),
    {
        self.workers.len()
    }

    /// Whether a submitted job would still be accepted.
    pub fn is_accepting(&self) -> (b: bool)
        ensures
            b == self.accepting(),
    {
        self.accepting_jobs
    }

    /// How many accepted jobs are still waiting to run.
    pub fn queued_len(&self) -> (n: usize)
        ensures
            n == self.queued().len(),
    {
        self.pending.len()
    }

    /// How many jobs have run to completion.
    pub fn completed_len(&self) -> (n: usize)
        ensures
            n == self.completed().len(),
    {
        self.done.len()
    }

    /// The log of completed jobs, in completion order.
    pub fn completed_log(&self) -> (log: Vec<u64>)
        ensures
            log@ == self.completed(),
    {
        let mut log: Vec<u64> = Vec::new();
        let n = self.done.len();
        let mut i: usize = 0;
        while i < n
            invariant
                i <= n,
                n == self.done@.len(),
                log@ == self.done@.subrange(0, i as int),
            decreases n - i,
        {
            log.push(self.done[i]);
            proof {
                assert(log@ =~= self.done@.subrange(0, i + 1));
            }
            i += 1;
        }
        proof {
            assert(log@ =~= self.done@);
        }
        log
    }

    /// The lifecycle state of the worker at position `i`.
    pub fn worker_state_at(&self, i: usize) -> (s: WorkerState)
        requires
            i < self.worker_count(),
        ensures
            s == self.state_of(i as int),
    {
        self.workers[i].state
    }

    /// The identity of the worker at position `i`.
    pub fn worker_id_at(&self, i: usize) -> (id: usize)
        requires
            i < self.worker_count(),
        ensures
            id == self.id_of(i as int),
    {
        self.workers[i].id
    }
}

/// While the pool accepts jobs, a sequence of submissions is enqueued whole
/// and in submission order. Together with `ThreadPool::shutdown`, whose
/// drain completes the queue as it stands, every job accepted by a fresh
/// pool is completed exactly once, in the order it was submitted.
pub proof fn lemma_open_pool_accepts_in_order(queue: Seq<u64>, jobs: Seq<u64>)
    ensures
        spec_submit_all(queue, true, jobs) == queue + jobs,
    decreases jobs.len(),
{
    if jobs.len() == 0 {
        assert(spec_submit_all(queue, true, jobs) =~= queue + jobs);
    } else {
        lemma_open_pool_accepts_in_order(queue.push(jobs[0]), jobs.drop_first());
        assert(queue.push(jobs[0]) + jobs.drop_first() =~= queue + jobs);
    }
}

/// A fresh pool that accepts a sequence of jobs and is then drained (see
/// `ThreadPool::shutdown`, whose drain completes the queue as it stands)
/// completes exactly the submitted jobs, in submission order — so each job
/// is invoked exactly once: no duplicate invocation, no silent loss. With a
/// single worker this order is the completion order outright; with several,
/// it is the order in which jobs become available to workers.
pub proof fn lemma_jobs_complete_exactly_once(jobs: Seq<u64>, job: u64)
    ensures
        spec_submit_all(Seq::<u64>::empty(), true, jobs) == jobs,
        spec_submit_all(Seq::<u64>::empty(), true, jobs).to_multiset().count(job)
            == jobs.to_multiset().count(job),
{
    lemma_open_pool_accepts_in_order(Seq::<u64>::empty(), jobs);
    assert(Seq::<u64>::empty() + jobs =~= jobs);
}

/// Once the sending side is closed, no submission changes the queue: every
/// job submitted after shutdown is dropped, never executed.
pub proof fn lemma_closed_pool_accepts_none(queue: Seq<u64>, jobs: Seq<u64>)
    ensures
        spec_submit_all(queue, false, jobs) == queue,
    decreases jobs.len(),
{
    if jobs.len() > 0 {
        lemma_closed_pool_accepts_none(queue, jobs.drop_first());
    }
}

/// Every live worker can execute a job: a worker that is `Running` reacts
/// to a received job by moving to `Executing` and running it, and returns
/// to `Running` when the job completes.
pub proof fn lemma_running_worker_executes()
    ensures
        spec_worker_step(WorkerState::Running, WorkerEvent::JobReceived) == (
            WorkerState::Executing,
            WorkerAction::RunJob,
        ),
        spec_worker_step(WorkerState::Executing, WorkerEvent::JobCompleted) == (
            WorkerState::Running,
            WorkerAction::AwaitNext,
        ),
{
}

} // verus!


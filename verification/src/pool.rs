//! The dispatcher: the pool handle that owns the work queue's producing end
//! and the set of workers. Submissions append to the queue; each worker pulls
//! the front job; shutdown closes the queue, drains every pending job, and
//! retires every worker before it returns.

use crate::queue::Received;
use crate::queue::SubmitError;
use crate::queue::WorkQueue;
use crate::worker::running_job;
use crate::worker::JobOutcome;
use crate::worker::Worker;
use crate::worker::WorkerState;
use vstd::multiset::Multiset;
use vstd::pervasive::VecAdditionalExecFns;
use vstd::prelude::*;

verus! {

broadcast use vstd::seq_lib::group_to_multiset_ensures, vstd::multiset::group_multiset_axioms;

/// The job tokens a pool has handed out so far: `0, 1, ..., n - 1`, in
/// submission order.
pub open spec fn ids_up_to(n: u64) -> Seq<u64> {
    Seq::new(n as nat, |i: int| i as u64)
}

/// What one worker holds in flight: its running job, if any.
pub open spec fn flight_of(w: Worker) -> Multiset<u64> {
    match w.state {
        WorkerState::Executing(j) => Multiset::singleton(j),
        WorkerState::Idle => Multiset::empty(),
        WorkerState::Terminal => Multiset::empty(),
    }
}

/// All jobs in flight across the workers: delivered, not yet finished.
pub open spec fn in_flight_of(ws: Seq<Worker>) -> Multiset<u64>
    decreases ws.len(),
{
    if ws.len() == 0 {
        Multiset::empty()
    } else {
        in_flight_of(ws.drop_last()).add(flight_of(ws.last()))
    }
}

/// The pool as the contracts see it: the workers, the queue's pending jobs
/// and open flag, the jobs delivered so far in delivery order, the jobs whose
/// execution has finished, and the count of jobs submitted so far.
#[verifier::ext_equal]
pub ghost struct PoolModel {
    pub workers: Seq<Worker>,
    pub pending: Seq<u64>,
    pub open: bool,
    pub dispatched: Seq<u64>,
    pub completed: Seq<u64>,
    pub next_job: u64,
}

impl PoolModel {
    /// The jobs delivered to a worker and not yet finished.
    pub open spec fn in_flight(self) -> Multiset<u64> {
        in_flight_of(self.workers)
    }

    /// The pool's invariant.
    ///
    /// Delivered and pending jobs together are exactly the submitted ones, in
    /// submission order: the queue neither drops, duplicates nor reorders a
    /// job. Finished and in-flight jobs together are exactly the delivered
    /// ones: a delivered job is executed, and only once. Workers carry their
    /// ordinals, and a worker retires only once the queue is closed and
    /// drained.
    pub open spec fn wf(self) -> bool {
        &&& self.workers.len() >= 1
        &&& forall|i: int|
            0 <= i < self.workers.len() ==> (#[trigger] self.workers[i]).id == i
        &&& self.dispatched + self.pending == ids_up_to(self.next_job)
        &&& self.completed.to_multiset().add(self.in_flight())
            == self.dispatched.to_multiset()
        &&& forall|i: int|
            0 <= i < self.workers.len() && (#[trigger] self.workers[i]).state is Terminal
                ==> !self.open && self.pending.len() == 0
    }

    /// A pool on which shutdown has run: closed, drained, every worker
    /// retired.
    pub open spec fn is_shut_down(self) -> bool {
        &&& !self.open
        &&& self.pending.len() == 0
        &&& forall|i: int|
            0 <= i < self.workers.len() ==> (#[trigger] self.workers[i]).state is Terminal
    }
}

/// The pool a fresh construction yields: `size` idle workers with ordinals
/// `0..size`, an open empty queue, nothing submitted.
pub open spec fn initial_model(size: usize) -> PoolModel {
    PoolModel {
        workers: Seq::new(size as nat, |i: int| Worker { id: i as usize, state: WorkerState::Idle }),
        pending: Seq::empty(),
        open: true,
        dispatched: Seq::empty(),
        completed: Seq::empty(),
        next_job: 0,
    }
}

/// The pool after a submission: the fresh token joins the queue's tail.
pub open spec fn after_submit(m: PoolModel) -> PoolModel {
    PoolModel {
        pending: m.pending.push(m.next_job),
        next_job: (m.next_job + 1) as u64,
        ..m
    }
}

/// The pool after worker `w` takes the front job: the job moves from the
/// queue to the worker, and is recorded as delivered.
pub open spec fn after_dispatch(m: PoolModel, w: int) -> PoolModel {
    PoolModel {
        workers: m.workers.update(
            w,
            Worker { id: m.workers[w].id, state: WorkerState::Executing(m.pending[0]) },
        ),
        pending: m.pending.drop_first(),
        dispatched: m.dispatched.push(m.pending[0]),
        ..m
    }
}

/// The pool after worker `w` finds the queue closed and drained and retires.
pub open spec fn after_retire(m: PoolModel, w: int) -> PoolModel {
    PoolModel {
        workers: m.workers.update(
            w,
            Worker { id: m.workers[w].id, state: WorkerState::Terminal },
        ),
        ..m
    }
}

/// The pool after the job on worker `w` returns: the worker is idle again and
/// the job counts as finished. The transition takes no outcome: a faulted job
/// moves the pool exactly as a completed one (fault containment).
pub open spec fn after_complete(m: PoolModel, w: int) -> PoolModel {
    PoolModel {
        workers: m.workers.update(
            w,
            Worker { id: m.workers[w].id, state: WorkerState::Idle },
        ),
        completed: m.completed.push(running_job(m.workers[w])),
        ..m
    }
}

/// The dispatcher. It owns the queue's producing end and the workers; jobs
/// are identified by the tokens `execute` hands out in submission order.
pub struct ThreadPool {
    workers: Vec<Worker>,
    queue: WorkQueue,
    dispatched: Vec<u64>,
    completed: Vec<u64>,
    next_job: u64,
}

impl View for ThreadPool {
    type V = PoolModel;

    closed spec fn view(&self) -> PoolModel {
        PoolModel {
            workers: self.workers@,
            pending: self.queue.pending(),
            open: self.queue.is_open(),
            dispatched: self.dispatched@,
            completed: self.completed@,
            next_job: self.next_job,
        }
    }
}

/// Exchanging one worker exchanges exactly its own flight: what the updated
/// sequence holds in flight, plus the old worker's job, equals what the old
/// sequence held, plus the new worker's job.
proof fn lemma_in_flight_update(ws: Seq<Worker>, i: int, w: Worker)
    requires
        0 <= i < ws.len(),
    ensures
        in_flight_of(ws.update(i, w)).add(flight_of(ws[i]))
            =~= in_flight_of(ws).add(flight_of(w)),
    decreases ws.len(),
{
    let upd = ws.update(i, w);
    assert(in_flight_of(upd) == in_flight_of(upd.drop_last()).add(flight_of(upd.last())));
    assert(in_flight_of(ws) == in_flight_of(ws.drop_last()).add(flight_of(ws.last())));
    if i == ws.len() - 1 {
        assert(upd.drop_last() =~= ws.drop_last());
        assert(upd.last() == w);
        assert(in_flight_of(upd).add(flight_of(ws[i]))
            =~= in_flight_of(ws).add(flight_of(w)));
    } else {
        assert(upd.drop_last() =~= ws.drop_last().update(i, w));
        assert(upd.last() == ws.last());
        lemma_in_flight_update(ws.drop_last(), i, w);
        assert(ws.drop_last()[i] == ws[i]);
        assert(in_flight_of(upd.drop_last()) == in_flight_of(ws.drop_last().update(i, w)));
        assert forall|v: u64|
            in_flight_of(upd).add(flight_of(ws[i])).count(v) == in_flight_of(ws).add(
                flight_of(w),
            ).count(v) by {
            let lhs0 = in_flight_of(ws.drop_last().update(i, w)).add(
                flight_of(ws.drop_last()[i]),
            );
            let rhs0 = in_flight_of(ws.drop_last()).add(flight_of(w));
            assert(lhs0.count(v) == rhs0.count(v));
        }
        assert(in_flight_of(upd).add(flight_of(ws[i]))
            =~= in_flight_of(ws).add(flight_of(w)));
    }
}

/// Workers none of which is executing hold nothing in flight.
proof fn lemma_in_flight_none(ws: Seq<Worker>)
    requires
        forall|i: int| 0 <= i < ws.len() ==> !((#[trigger] ws[i]).state is Executing),
    ensures
        in_flight_of(ws) =~= Multiset::empty(),
    decreases ws.len(),
{
    if ws.len() > 0 {
        lemma_in_flight_none(ws.drop_last());
    }
}

/// Each token below `n` occurs exactly once among the first `n` tokens, and
/// no other token occurs at all.
proof fn lemma_ids_count(n: u64, id: u64)
    ensures
        ids_up_to(n).to_multiset().count(id) == (if id < n {
            1nat
        } else {
            0nat
        }),
    decreases n,
{
    if n == 0 {
        assert(ids_up_to(0) =~= Seq::<u64>::empty());
    } else {
        lemma_ids_count((n - 1) as u64, id);
        assert(ids_up_to(n) =~= ids_up_to((n - 1) as u64).push((n - 1) as u64));
    }
}

/// Delivering the front job to idle worker `w` preserves the pool invariant.
proof fn lemma_after_dispatch_wf(m: PoolModel, w: int)
    requires
        m.wf(),
        0 <= w < m.workers.len(),
        m.workers[w].state is Idle,
        m.pending.len() > 0,
    ensures
        after_dispatch(m, w).wf(),
{
    let j = m.pending[0];
    let neww = Worker { id: m.workers[w].id, state: WorkerState::Executing(j) };
    let after = after_dispatch(m, w);
    assert(after.dispatched + after.pending =~= m.dispatched + m.pending);
    lemma_in_flight_update(m.workers, w, neww);
    assert forall|v: u64|
        after.completed.to_multiset().add(after.in_flight()).count(v)
            == after.dispatched.to_multiset().count(v) by {
        let l = in_flight_of(m.workers.update(w, neww)).add(flight_of(m.workers[w]));
        let r = in_flight_of(m.workers).add(flight_of(neww));
        assert(l.count(v) == r.count(v));
        assert(m.completed.to_multiset().add(in_flight_of(m.workers)).count(v)
            == m.dispatched.to_multiset().count(v));
        assert(after.dispatched.to_multiset() =~= m.dispatched.to_multiset().insert(j));
    }
    assert(after.completed.to_multiset().add(after.in_flight())
        =~= after.dispatched.to_multiset());
}

/// Retiring idle worker `w` on a closed, drained queue preserves the pool
/// invariant.
proof fn lemma_after_retire_wf(m: PoolModel, w: int)
    requires
        m.wf(),
        0 <= w < m.workers.len(),
        m.workers[w].state is Idle,
        !m.open,
        m.pending.len() == 0,
    ensures
        after_retire(m, w).wf(),
{
    let neww = Worker { id: m.workers[w].id, state: WorkerState::Terminal };
    let after = after_retire(m, w);
    lemma_in_flight_update(m.workers, w, neww);
    assert forall|v: u64|
        after.completed.to_multiset().add(after.in_flight()).count(v)
            == after.dispatched.to_multiset().count(v) by {
        let l = in_flight_of(m.workers.update(w, neww)).add(flight_of(m.workers[w]));
        let r = in_flight_of(m.workers).add(flight_of(neww));
        assert(l.count(v) == r.count(v));
        assert(m.completed.to_multiset().add(in_flight_of(m.workers)).count(v)
            == m.dispatched.to_multiset().count(v));
    }
    assert(after.completed.to_multiset().add(after.in_flight())
        =~= after.dispatched.to_multiset());
}

/// Fault containment: when the job on worker `w` returns, the worker is idle
/// again and everything else — the queue, its open flag, the delivery record,
/// the submission count — stands as before, and the pool invariant holds. The
/// transition `after_complete` takes no outcome, so a job that faulted moves
/// the pool exactly as one that completed: a misbehaving job can neither
/// terminate its worker nor disturb the jobs submitted after it.
pub proof fn lemma_fault_containment(m: PoolModel, w: int)
    requires
        m.wf(),
        0 <= w < m.workers.len(),
        m.workers[w].state is Executing,
    ensures
        after_complete(m, w).wf(),
        after_complete(m, w).workers[w].state is Idle,
        after_complete(m, w).workers.len() == m.workers.len(),
        forall|i: int|
            0 <= i < m.workers.len() && i != w ==> after_complete(m, w).workers[i]
                == m.workers[i],
        after_complete(m, w).pending == m.pending,
        after_complete(m, w).open == m.open,
        after_complete(m, w).dispatched == m.dispatched,
        after_complete(m, w).next_job == m.next_job,
        after_complete(m, w).completed == m.completed.push(running_job(m.workers[w])),
{
    let j = running_job(m.workers[w]);
    let neww = Worker { id: m.workers[w].id, state: WorkerState::Idle };
    let after = after_complete(m, w);
    lemma_in_flight_update(m.workers, w, neww);
    assert forall|v: u64|
        after.completed.to_multiset().add(after.in_flight()).count(v)
            == after.dispatched.to_multiset().count(v) by {
        let l = in_flight_of(m.workers.update(w, neww)).add(flight_of(m.workers[w]));
        let r = in_flight_of(m.workers).add(flight_of(neww));
        assert(l.count(v) == r.count(v));
        assert(m.completed.to_multiset().add(in_flight_of(m.workers)).count(v)
            == m.dispatched.to_multiset().count(v));
        assert(after.completed.to_multiset() =~= m.completed.to_multiset().insert(j));
    }
    assert(after.completed.to_multiset().add(after.in_flight())
        =~= after.dispatched.to_multiset());
}

impl ThreadPool {
    /// How many workers the pool runs.
    pub fn worker_count(&self) -> (n: usize)
        ensures
            n == self@.workers.len(),
    {
        self.workers.len()
    }

    /// Where worker `w` stands in its lifecycle.
    pub fn worker_state(&self, w: usize) -> (s: WorkerState)
        requires
            w < self@.workers.len(),
        ensures
            s == self@.workers[w as int].state,
    {
        self.workers[w].state
    }

    /// How many jobs wait in the queue.
    pub fn pending_count(&self) -> (n: usize)
        ensures
            n == self@.pending.len(),
    {
        self.queue.len()
    }

    /// How many jobs have finished executing.
    pub fn completed_count(&self) -> (n: usize)
        ensures
            n == self@.completed.len(),
    {
        self.completed.len()
    }

    /// How many jobs have been submitted; also the next token to be handed
    /// out.
    pub fn submitted_count(&self) -> (n: u64)
        ensures
            n == self@.next_job,
    {
        self.next_job
    }

    /// Whether submissions are still accepted.
    pub fn is_open(&self) -> (b: bool)
        ensures
            b == self@.open,
    {
        self.queue.is_open()
    }

    /// Creates a pool of exactly `size` workers, every one of them spawned
    /// idle with its ordinal, around a fresh open queue. A size below one is
    /// a fatal configuration error and is refused by the precondition; see
    /// `try_new` for the checked form.
    pub fn new(size: usize) -> (pool: ThreadPool)
        requires
            size >= 1,
        ensures
            pool@ == initial_model(size),
            pool@.wf(),
            pool@.workers.len() == size,
            forall|i: int|
                0 <= i < size ==> pool@.workers[i] == (Worker {
                    id: i as usize,
                    state: WorkerState::Idle,
                }),
    {
        let mut workers: Vec<Worker> = Vec::new();
        let mut i: usize = 0;
        while i < size
            invariant
                i <= size,
                workers@.len() == i,
                forall|k: int|
                    0 <= k < i ==> #[trigger] workers@[k] == (Worker {
                        id: k as usize,
                        state: WorkerState::Idle,
                    }),
            decreases size - i,
        {
            workers.push(Worker::new(i));
            i = i + 1;
        }
        let pool = ThreadPool {
            workers,
            queue: WorkQueue::new(),
            dispatched: Vec::new(),
            completed: Vec::new(),
            next_job: 0,
        };
        proof {
            assert(pool@.workers =~= initial_model(size).workers);
            assert(pool@ =~= initial_model(size));
            assert(pool@.dispatched + pool@.pending =~= ids_up_to(0));
            lemma_in_flight_none(pool@.workers);
            assert(pool@.completed.to_multiset().add(pool@.in_flight())
                =~= pool@.dispatched.to_multiset());
        }
        pool
    }

    /// The checked constructor: refuses a zero size before any worker is
    /// spawned, and otherwise builds the pool exactly as `new` does.
    pub fn try_new(size: usize) -> (r: Option<ThreadPool>)
        ensures
            r is Some <==> size >= 1,
            r matches Some(pool) ==> pool@ == initial_model(size) && pool@.wf(),
    {
        if size >= 1 {
            Some(ThreadPool::new(size))
        } else {
            None
        }
    }

    /// Submits a job: while the pool is open, the job is appended to the
    /// queue under a fresh token, which is returned; after shutdown the
    /// submission is refused and the pool is unchanged.
    pub fn execute(&mut self) -> (r: Result<u64, SubmitError>)
        requires
            old(self)@.wf(),
            old(self)@.next_job < u64::MAX,
        ensures
            final(self)@.wf(),
            r is Ok <==> old(self)@.open,
            old(self)@.open ==> {
                &&& r == Ok::<u64, SubmitError>(old(self)@.next_job)
                &&& final(self)@ == after_submit(old(self)@)
            },
            !old(self)@.open ==> {
                &&& r == Err::<u64, SubmitError>(SubmitError::PoolClosed)
                &&& final(self)@ == old(self)@
            },
    {
        match self.queue.enqueue(self.next_job) {
            Ok(()) => {
                let id = self.next_job;
                self.next_job = self.next_job + 1;
                proof {
                    assert(self@ =~= after_submit(old(self)@));
                    assert(self@.dispatched + self@.pending =~= ids_up_to(self@.next_job)) by {
                        assert(old(self)@.dispatched + old(self)@.pending
                            == ids_up_to(old(self)@.next_job));
                        assert(self@.dispatched + self@.pending
                            =~= (old(self)@.dispatched + old(self)@.pending).push(id));
                        assert(ids_up_to(self@.next_job)
                            =~= ids_up_to(old(self)@.next_job).push(id));
                    }
                }
                Ok(id)
            },
            Err(e) => {
                proof {
                    assert(self@ =~= old(self)@);
                }
                Err(e)
            },
        }
    }

    /// Idle worker `w` pulls from the queue. With a job pending, the front
    /// job — and no other — moves to this worker and is recorded as
    /// delivered. On a closed, drained queue the worker retires. On an open,
    /// empty queue nothing changes: the real worker blocks and tries again.
    pub fn dispatch(&mut self, w: usize) -> (got: Received)
        requires
            old(self)@.wf(),
            w < old(self)@.workers.len(),
            old(self)@.workers[w as int].state is Idle,
        ensures
            final(self)@.wf(),
            old(self)@.pending.len() > 0 ==> {
                &&& got == Received::Job(old(self)@.pending[0])
                &&& final(self)@ == after_dispatch(old(self)@, w as int)
            },
            old(self)@.pending.len() == 0 && !old(self)@.open ==> {
                &&& got == Received::Closed
                &&& final(self)@ == after_retire(old(self)@, w as int)
            },
            old(self)@.pending.len() == 0 && old(self)@.open ==> {
                &&& got == Received::Empty
                &&& final(self)@ == old(self)@
            },
    {
        let got = self.queue.dequeue();
        match got {
            Received::Job(j) => {
                let mut wk = self.workers[w];
                wk.on_receive(got);
                self.workers.set(w, wk);
                self.dispatched.push(j);
                proof {
                    assert(self@ =~= after_dispatch(old(self)@, w as int));
                    lemma_after_dispatch_wf(old(self)@, w as int);
                }
            },
            Received::Closed => {
                let mut wk = self.workers[w];
                wk.on_receive(got);
                self.workers.set(w, wk);
                proof {
                    assert(self@ =~= after_retire(old(self)@, w as int));
                    lemma_after_retire_wf(old(self)@, w as int);
                }
            },
            Received::Empty => {
                proof {
                    assert(self@ =~= old(self)@);
                }
            },
        }
        got
    }

    /// The job on worker `w` has returned and the worker goes back to
    /// waiting; the job counts as finished and its token is returned. The
    /// outcome plays no part in the contract: a faulted job leaves the pool
    /// exactly as a completed one (see `lemma_fault_containment`).
    pub fn complete(&mut self, w: usize, outcome: JobOutcome) -> (j: u64)
        requires
            old(self)@.wf(),
            w < old(self)@.workers.len(),
            old(self)@.workers[w as int].state is Executing,
        ensures
            final(self)@.wf(),
            old(self)@.workers[w as int].state == WorkerState::Executing(j),
            final(self)@ == after_complete(old(self)@, w as int),
    {
        let mut wk = self.workers[w];
        let j = wk.finish(outcome);
        self.workers.set(w, wk);
        self.completed.push(j);
        proof {
            assert(self@ =~= after_complete(old(self)@, w as int));
            lemma_fault_containment(old(self)@, w as int);
        }
        j
    }

    /// Shuts the pool down: closes the producing end so no further
    /// submission succeeds, finishes whatever is in flight, drains every job
    /// still queued, and retires every worker. Returns only when every
    /// previously submitted job has been executed and every worker has been
    /// joined: no abandoned work, no lingering worker. Idempotent: on a pool
    /// already shut down it changes nothing.
    pub fn shutdown(&mut self)
        requires
            old(self)@.wf(),
        ensures
            final(self)@.wf(),
            final(self)@.is_shut_down(),
            final(self)@.workers.len() == old(self)@.workers.len(),
            final(self)@.next_job == old(self)@.next_job,
            final(self)@.dispatched == ids_up_to(old(self)@.next_job),
            final(self)@.completed.to_multiset() == ids_up_to(
                old(self)@.next_job,
            ).to_multiset(),
            old(self)@.is_shut_down() ==> final(self)@ == old(self)@,
    {
        let n = self.workers.len();
        self.queue.close();
        proof {
            assert(self@.wf());
            assert(old(self)@.is_shut_down() ==> self@ =~= old(self)@);
        }
        // Finish whatever is in flight.
        let mut w: usize = 0;
        while w < n
            invariant
                self@.wf(),
                w <= n,
                n == self@.workers.len(),
                !self@.open,
                self@.next_job == old(self)@.next_job,
                forall|i: int|
                    0 <= i < w ==> !((#[trigger] self@.workers[i]).state is Executing),
                old(self)@.is_shut_down() ==> self@ == old(self)@,
            decreases n - w,
        {
            let st = self.workers[w].state;
            match st {
                WorkerState::Executing(_) => {
                    let _ = self.complete(w, JobOutcome::Completed);
                },
                WorkerState::Idle => {},
                WorkerState::Terminal => {},
            }
            w = w + 1;
        }
        // Drain the queue: an idle worker takes and runs each remaining job.
        while self.pending_count() > 0
            invariant
                self@.wf(),
                n == self@.workers.len(),
                !self@.open,
                self@.next_job == old(self)@.next_job,
                forall|i: int|
                    0 <= i < n ==> !((#[trigger] self@.workers[i]).state is Executing),
                old(self)@.is_shut_down() ==> self@ == old(self)@,
            decreases self@.pending.len(),
        {
            proof {
                if self@.workers[0].state is Terminal {
                    assert(self@.pending.len() == 0);
                }
            }
            let _ = self.dispatch(0);
            let _ = self.complete(0, JobOutcome::Completed);
        }
        // Nothing pending, nothing in flight: the workers retire.
        w = 0;
        while w < n
            invariant
                self@.wf(),
                w <= n,
                n == self@.workers.len(),
                !self@.open,
                self@.pending.len() == 0,
                self@.next_job == old(self)@.next_job,
                forall|i: int| 0 <= i < w ==> (#[trigger] self@.workers[i]).state is Terminal,
                forall|i: int|
                    0 <= i < n ==> !((#[trigger] self@.workers[i]).state is Executing),
                old(self)@.is_shut_down() ==> self@ == old(self)@,
            decreases n - w,
        {
            let st = self.workers[w].state;
            match st {
                WorkerState::Idle => {
                    let _ = self.dispatch(w);
                },
                WorkerState::Executing(_) => {},
                WorkerState::Terminal => {},
            }
            w = w + 1;
        }
        proof {
            assert(self@.dispatched =~= ids_up_to(old(self)@.next_job)) by {
                assert(self@.dispatched + self@.pending == ids_up_to(self@.next_job));
                assert(self@.dispatched + self@.pending =~= self@.dispatched);
            }
            lemma_in_flight_none(self@.workers);
            assert(self@.completed.to_multiset() =~= self@.dispatched.to_multiset()) by {
                assert(self@.completed.to_multiset().add(self@.in_flight())
                    == self@.dispatched.to_multiset());
                assert(forall|v: u64|
                    self@.completed.to_multiset().add(self@.in_flight()).count(v)
                        == self@.completed.to_multiset().count(v));
            }
        }
    }
}

/// Exactly-once execution: in any well-formed pool state, each submitted job
/// sits in exactly one of three places — waiting in the queue, in flight on a
/// worker, or finished — and appears there exactly once, while a token never
/// handed out appears nowhere. No job is skipped, dropped or run twice.
pub proof fn lemma_exactly_once(m: PoolModel, id: u64)
    requires
        m.wf(),
    ensures
        m.pending.to_multiset().count(id) + m.in_flight().count(id)
            + m.completed.to_multiset().count(id) == (if id < m.next_job {
            1nat
        } else {
            0nat
        }),
{
    lemma_ids_count(m.next_job, id);
    vstd::seq_lib::lemma_multiset_commutative(m.dispatched, m.pending);
    assert((m.dispatched + m.pending).to_multiset() == ids_up_to(m.next_job).to_multiset());
    assert(m.completed.to_multiset().add(m.in_flight()).count(id)
        == m.dispatched.to_multiset().count(id));
}

/// FIFO delivery: the jobs delivered so far are exactly the first
/// `dispatched.len()` jobs submitted, in submission order.
pub proof fn lemma_fifo_delivery(m: PoolModel)
    requires
        m.wf(),
    ensures
        m.dispatched == ids_up_to(m.next_job).take(m.dispatched.len() as int),
{
    assert(m.dispatched =~= ids_up_to(m.next_job).take(m.dispatched.len() as int));
}

} // verus!

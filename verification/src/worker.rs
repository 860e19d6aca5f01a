//! The worker: a persistent consumer of the work queue, identified by its
//! ordinal, cycling between waiting for a job and executing one. A worker
//! retires only when the queue is closed and drained; a job that faults during
//! execution leaves the worker idle and ready for the next job, exactly as a
//! job that completes.

use crate::queue::Received;
use vstd::prelude::*;

verus! {

/// The two-state cycle of the worker's lifecycle, plus the terminal state
/// reached when the queue is closed and drained.
#[derive(Debug, Clone, Copy, PartialEq, Eq, Structural)]
pub enum WorkerState {
    /// Waiting for the next job.
    Idle,
    /// Running the job it holds; the payload is the job's token.
    Executing(u64),
    /// Retired: the queue was closed and nothing remained to drain.
    Terminal,
}

/// How a job's execution ended. A fault is contained at the worker boundary:
/// it changes nothing about what the worker does next.
#[derive(Debug, Clone, Copy, PartialEq, Eq, Structural)]
pub enum JobOutcome {
    Completed,
    Faulted,
}

/// A worker: its ordinal and where it stands in its lifecycle.
#[derive(Debug, Clone, Copy, PartialEq, Eq, Structural)]
pub struct Worker {
    pub id: usize,
    pub state: WorkerState,
}

/// The state an idle worker moves to on the given dequeue result: a job puts
/// it to work, an empty open queue leaves it waiting, a closed and drained
/// queue retires it.
pub open spec fn received_state(got: Received) -> WorkerState {
    match got {
        Received::Job(j) => WorkerState::Executing(j),
        Received::Empty => WorkerState::Idle,
        Received::Closed => WorkerState::Terminal,
    }
}

/// The job the worker is running, when it is running one.
pub open spec fn running_job(w: Worker) -> u64 {
    match w.state {
        WorkerState::Executing(j) => j,
        WorkerState::Idle => 0,
        WorkerState::Terminal => 0,
    }
}

impl Worker {
    /// Creates the worker with the given ordinal, ready to wait for work.
    pub fn new(id: usize) -> (w: Worker)
        ensures
            w.id == id,
            w.state == WorkerState::Idle,
    {
        Worker { id, state: WorkerState::Idle }
    }

    /// An idle worker reacts to what its dequeue attempt yielded.
    pub fn on_receive(&mut self, got: Received)
        requires
            old(self).state is Idle,
        ensures
            final(self).id == old(self).id,
            final(self).state == received_state(got),
    {
        match got {
            Received::Job(j) => {
                self.state = WorkerState::Executing(j);
            },
            Received::Empty => {},
            Received::Closed => {
                self.state = WorkerState::Terminal;
            },
        }
    }

    /// The job the worker was running has returned; the worker goes back to
    /// waiting for the next job. The outcome plays no part: a faulted job
    /// leaves the worker exactly as a completed one does (fault containment).
    pub fn finish(&mut self, _outcome: JobOutcome) -> (j: u64)
        requires
            old(self).state is Executing,
        ensures
            old(self).state == WorkerState::Executing(j),
            final(self).id == old(self).id,
            final(self).state == WorkerState::Idle,
    {
        let j: u64 = match self.state {
            WorkerState::Executing(id) => id,
            WorkerState::Idle => 0,
            WorkerState::Terminal => 0,
        };
        self.state = WorkerState::Idle;
        j
    }
}

} // verus!

//! The shared work queue: an ordered, multi-producer/multi-consumer conduit
//! of jobs. A job enqueued while the queue is open is delivered to exactly one
//! consumer, exactly once, in arrival order; once the producing end is closed,
//! no further job is accepted, and consumers drain what remains.

use vstd::prelude::*;

verus! {

/// Why a submission was refused.
#[derive(Debug, Clone, Copy, PartialEq, Eq, Structural)]
pub enum SubmitError {
    /// The producing end was closed by a prior shutdown.
    PoolClosed,
}

/// What a consumer's dequeue attempt yields: the next job, nothing yet (the
/// queue is open but empty, so a worker would block and try again), or the
/// news that the queue is closed and drained, after which a worker retires.
#[derive(Debug, Clone, Copy, PartialEq, Eq, Structural)]
pub enum Received {
    Job(u64),
    Empty,
    Closed,
}

/// The work queue. Jobs are identified by the tokens handed out at
/// submission; the front of `jobs` is the next job to be delivered.
pub struct WorkQueue {
    jobs: Vec<u64>,
    open: bool,
}

impl WorkQueue {
    /// The jobs waiting for delivery, front first.
    pub closed spec fn pending(self) -> Seq<u64> {
        self.jobs@
    }

    /// Whether the producing end is still open.
    pub closed spec fn spec_is_open(&self) -> bool {
        self.open
    }

    /// Whether the producing end is still open.
    #[verifier::when_used_as_spec(spec_is_open)]
    pub fn is_open(&self) -> (b: bool)
        ensures
            b == self.spec_is_open(),
    {
        self.open
    }

    /// Creates an empty, open queue.
    pub fn new() -> (q: WorkQueue)
        ensures
            q.is_open(),
            q.pending() == Seq::<u64>::empty(),
    {
        WorkQueue { jobs: Vec::new(), open: true }
    }

    /// Appends a job for delivery. Succeeds exactly when the queue is open;
    /// after a close, the job is refused and the queue is unchanged.
    pub fn enqueue(&mut self, job: u64) -> (r: Result<(), SubmitError>)
        ensures
            r is Ok <==> old(self).is_open(),
            old(self).is_open() ==> {
                &&& final(self).pending() == old(self).pending().push(job)
                &&& final(self).is_open()
            },
            !old(self).is_open() ==> {
                &&& r == Err::<(), SubmitError>(SubmitError::PoolClosed)
                &&& final(self).pending() == old(self).pending()
                &&& !final(self).is_open()
            },
    {
        if self.open {
            self.jobs.push(job);
            Ok(())
        } else {
            Err(SubmitError::PoolClosed)
        }
    }

    /// Removes and returns the front job, so no other consumer can also
    /// receive it. On an empty queue, reports `Empty` while the queue is open
    /// (a worker would block and retry) and `Closed` once it is closed.
    pub fn dequeue(&mut self) -> (r: Received)
        ensures
            old(self).pending().len() > 0 ==> {
                &&& r == Received::Job(old(self).pending()[0])
                &&& final(self).pending() == old(self).pending().drop_first()
            },
            old(self).pending().len() == 0 ==> {
                &&& r == (if old(self).is_open() {
                    Received::Empty
                } else {
                    Received::Closed
                })
                &&& final(self).pending() == old(self).pending()
            },
            final(self).is_open() == old(self).is_open(),
    {
        if self.jobs.len() > 0 {
            let j = self.jobs.remove(0);
            proof {
                assert(self.jobs@ =~= old(self).jobs@.drop_first());
            }
            Received::Job(j)
        } else if self.open {
            Received::Empty
        } else {
            Received::Closed
        }
    }

    /// Closes the producing end: no further enqueue succeeds; what is already
    /// pending stays available for delivery. Idempotent.
    pub fn close(&mut self)
        ensures
            !final(self).is_open(),
            final(self).pending() == old(self).pending(),
    {
        self.open = false;
    }

    /// How many jobs are waiting for delivery.
    pub fn len(&self) -> (n: usize)
        ensures
            n == self.pending().len(),
    {
        self.jobs.len()
    }
}

} // verus!

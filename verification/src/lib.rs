//! A fixed-size worker pool: jobs submitted through a dispatcher are placed on
//! one shared FIFO queue and handed out to a bounded set of workers, each job
//! delivered to exactly one worker, exactly once.
//!
//! The crate verifies the pool's protocol: the queue's single-delivery
//! dequeue, the worker lifecycle (idle, executing, terminal), fault
//! containment, and the shutdown drain that completes every submitted job.

pub mod pool;
pub mod queue;
pub mod worker;

pub use pool::PoolModel;
pub use pool::ThreadPool;
pub use queue::Received;
pub use queue::SubmitError;
pub use queue::WorkQueue;
pub use worker::JobOutcome;
pub use worker::Worker;
pub use worker::WorkerState;

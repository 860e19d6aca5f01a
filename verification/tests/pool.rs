use workpool::JobOutcome;
use workpool::Received;
use workpool::SubmitError;
use workpool::ThreadPool;
use workpool::WorkerState;

#[test]
fn new_spawns_exactly_size_workers() {
    let pool = ThreadPool::new(4);
    assert_eq!(pool.worker_count(), 4);
    for w in 0..4 {
        assert_eq!(pool.worker_state(w), WorkerState::Idle);
    }
    let single = ThreadPool::new(1);
    assert_eq!(single.worker_count(), 1);
    assert_eq!(single.worker_state(0), WorkerState::Idle);
}

#[test]
fn try_new_zero_fails_before_any_worker() {
    assert!(ThreadPool::try_new(0).is_none());
    let pool = ThreadPool::try_new(3).expect("a positive size must be accepted");
    assert_eq!(pool.worker_count(), 3);
}

#[test]
fn execute_hands_out_sequential_tokens() {
    let mut pool = ThreadPool::new(2);
    assert_eq!(pool.execute(), Ok(0));
    assert_eq!(pool.execute(), Ok(1));
    assert_eq!(pool.execute(), Ok(2));
    assert_eq!(pool.submitted_count(), 3);
    assert_eq!(pool.pending_count(), 3);
}

#[test]
fn dispatch_is_fifo_single_delivery() {
    let mut pool = ThreadPool::new(2);
    for _ in 0..3 {
        pool.execute().unwrap();
    }
    assert_eq!(pool.dispatch(0), Received::Job(0));
    assert_eq!(pool.dispatch(1), Received::Job(1));
    assert_eq!(pool.worker_state(0), WorkerState::Executing(0));
    assert_eq!(pool.worker_state(1), WorkerState::Executing(1));
    assert_eq!(pool.complete(0, JobOutcome::Completed), 0);
    assert_eq!(pool.dispatch(0), Received::Job(2));
    assert_eq!(pool.pending_count(), 0);
    // Nothing is delivered twice: the queue is drained, not recycling jobs.
    assert_eq!(pool.complete(1, JobOutcome::Completed), 1);
    assert_eq!(pool.dispatch(1), Received::Empty);
}

#[test]
fn dispatch_on_open_empty_queue_waits() {
    let mut pool = ThreadPool::new(1);
    assert_eq!(pool.dispatch(0), Received::Empty);
    assert_eq!(pool.worker_state(0), WorkerState::Idle);
    assert!(pool.is_open());
}

#[test]
fn faulted_job_does_not_stop_later_jobs() {
    let mut pool = ThreadPool::new(1);
    pool.execute().unwrap();
    pool.execute().unwrap();
    assert_eq!(pool.dispatch(0), Received::Job(0));
    assert_eq!(pool.complete(0, JobOutcome::Faulted), 0);
    assert_eq!(pool.worker_state(0), WorkerState::Idle);
    assert_eq!(pool.dispatch(0), Received::Job(1));
    assert_eq!(pool.complete(0, JobOutcome::Completed), 1);
    assert_eq!(pool.completed_count(), 2);
}

#[test]
fn shutdown_completes_all_submitted() {
    let mut pool = ThreadPool::new(2);
    for _ in 0..5 {
        pool.execute().unwrap();
    }
    assert_eq!(pool.dispatch(0), Received::Job(0));
    pool.shutdown();
    assert_eq!(pool.completed_count(), 5);
    assert_eq!(pool.pending_count(), 0);
    assert!(!pool.is_open());
    for w in 0..2 {
        assert_eq!(pool.worker_state(w), WorkerState::Terminal);
    }
}

#[test]
fn submit_after_shutdown_reports_failure() {
    let mut pool = ThreadPool::new(2);
    pool.execute().unwrap();
    pool.shutdown();
    assert_eq!(pool.execute(), Err(SubmitError::PoolClosed));
    assert_eq!(pool.execute(), Err(SubmitError::PoolClosed));
    assert_eq!(pool.completed_count(), 1);
    assert_eq!(pool.submitted_count(), 1);
}

#[test]
fn shutdown_is_idempotent() {
    let mut pool = ThreadPool::new(3);
    for _ in 0..7 {
        pool.execute().unwrap();
    }
    pool.shutdown();
    pool.shutdown();
    assert_eq!(pool.completed_count(), 7);
    assert_eq!(pool.pending_count(), 0);
    for w in 0..3 {
        assert_eq!(pool.worker_state(w), WorkerState::Terminal);
    }
}

#[test]
fn counter_scenario_hundred_jobs() {
    let mut pool = ThreadPool::new(4);
    let mut counter: u64 = 0;
    for _ in 0..100 {
        assert!(pool.execute().is_ok());
        counter += 1;
    }
    pool.shutdown();
    assert_eq!(counter, 100);
    assert_eq!(pool.completed_count(), 100);
    assert_eq!(pool.submitted_count(), 100);
}

use workpool::JobOutcome;
use workpool::Received;
use workpool::Worker;
use workpool::WorkerState;

#[test]
fn worker_starts_idle_with_ordinal() {
    let w = Worker::new(5);
    assert_eq!(w.id, 5);
    assert_eq!(w.state, WorkerState::Idle);
}

#[test]
fn worker_receive_and_finish_cycle() {
    let mut w = Worker::new(0);
    w.on_receive(Received::Job(7));
    assert_eq!(w.state, WorkerState::Executing(7));
    let j = w.finish(JobOutcome::Completed);
    assert_eq!(j, 7);
    assert_eq!(w.state, WorkerState::Idle);
}

#[test]
fn worker_fault_leaves_worker_idle() {
    let mut w = Worker::new(2);
    w.on_receive(Received::Job(3));
    let j = w.finish(JobOutcome::Faulted);
    assert_eq!(j, 3);
    assert_eq!(w.state, WorkerState::Idle);
    w.on_receive(Received::Job(4));
    assert_eq!(w.state, WorkerState::Executing(4));
}

#[test]
fn worker_waits_while_queue_open_and_empty() {
    let mut w = Worker::new(1);
    w.on_receive(Received::Empty);
    assert_eq!(w.state, WorkerState::Idle);
    assert_eq!(w.id, 1);
}

#[test]
fn worker_retires_on_closed_queue() {
    let mut w = Worker::new(0);
    w.on_receive(Received::Closed);
    assert_eq!(w.state, WorkerState::Terminal);
}

use workpool::Received;
use workpool::SubmitError;
use workpool::WorkQueue;

#[test]
fn enqueue_dequeue_fifo_order() {
    let mut q = WorkQueue::new();
    q.enqueue(10).unwrap();
    q.enqueue(11).unwrap();
    q.enqueue(12).unwrap();
    assert_eq!(q.len(), 3);
    assert_eq!(q.dequeue(), Received::Job(10));
    assert_eq!(q.dequeue(), Received::Job(11));
    assert_eq!(q.dequeue(), Received::Job(12));
    assert_eq!(q.len(), 0);
}

#[test]
fn dequeue_empty_open_reports_empty() {
    let mut q = WorkQueue::new();
    assert!(q.is_open());
    assert_eq!(q.dequeue(), Received::Empty);
    assert_eq!(q.dequeue(), Received::Empty);
}

#[test]
fn close_refuses_enqueue_and_drains() {
    let mut q = WorkQueue::new();
    q.enqueue(1).unwrap();
    q.enqueue(2).unwrap();
    q.close();
    assert_eq!(q.enqueue(3), Err(SubmitError::PoolClosed));
    assert_eq!(q.dequeue(), Received::Job(1));
    assert_eq!(q.dequeue(), Received::Job(2));
    assert_eq!(q.dequeue(), Received::Closed);
    assert_eq!(q.dequeue(), Received::Closed);
}

#[test]
fn close_is_idempotent() {
    let mut q = WorkQueue::new();
    q.close();
    q.close();
    assert!(!q.is_open());
    assert_eq!(q.enqueue(0), Err(SubmitError::PoolClosed));
}

use styx::queue::{
    BoundedQueue, RecvOutcome, RecvWaitOutcome, RecvWaitStep, SendOutcome, SendWaitOutcome,
    SendWaitStep, DEFAULT_QUEUE_CAPACITY,
};

#[test]
fn queue_send_timeout_returns_value_when_queue_stays_full() {
    let mut q = BoundedQueue::new(1);
    assert!(matches!(q.send(1), SendOutcome::Sent));

    match q.send_wait_step(2, true) {
        SendWaitStep::Done(SendWaitOutcome::Timeout(value)) => assert_eq!(value, 2),
        other => panic!("expected timeout, got {other:?}"),
    }

    match q.recv() {
        RecvOutcome::Data(value) => assert_eq!(value, 1),
        other => panic!("expected queued value, got {other:?}"),
    }
}

#[test]
fn tests_send_timeout_returns_value_when_queue_stays_full() {
    let mut q = BoundedQueue::new(1);
    assert!(matches!(q.send(1), SendOutcome::Sent));

    match q.send_wait_step(2, true) {
        SendWaitStep::Done(SendWaitOutcome::Timeout(value)) => assert_eq!(value, 2),
        other => panic!("expected timeout, got {other:?}"),
    }

    match q.recv() {
        RecvOutcome::Data(value) => assert_eq!(value, 1),
        other => panic!("expected queued value, got {other:?}"),
    }
    assert_eq!(q.stats().send_timeouts, 1);
}

#[test]
fn queue_is_first_in_first_out() {
    let mut q = BoundedQueue::new(3);
    assert_eq!(q.send(1), SendOutcome::Sent);
    assert_eq!(q.send(2), SendOutcome::Sent);
    assert!(matches!(q.recv(), RecvOutcome::Data(1)));
    assert_eq!(q.send(3), SendOutcome::Sent);
    assert!(matches!(q.recv(), RecvOutcome::Data(2)));
    assert!(matches!(q.recv(), RecvOutcome::Data(3)));
    assert!(matches!(q.recv(), RecvOutcome::Empty));
}

#[test]
fn full_queue_counts_backpressure() {
    let mut q = BoundedQueue::new(1);
    assert_eq!(q.send(1), SendOutcome::Sent);
    assert_eq!(q.send(2), SendOutcome::Full);
    assert_eq!(q.len(), 1);
    let stats = q.stats();
    assert_eq!(stats.depth, 1);
    assert_eq!(stats.capacity, 1);
    assert_eq!(stats.send_backpressure, 1);
}

#[test]
fn closed_queue_drains_then_reports_closed() {
    let mut q = BoundedQueue::new(2);
    assert_eq!(q.send(7), SendOutcome::Sent);
    q.close();
    assert!(q.closed());
    assert_eq!(q.send(8), SendOutcome::Closed);
    assert!(matches!(q.recv(), RecvOutcome::Data(7)));
    assert!(matches!(q.recv(), RecvOutcome::Closed));
    assert!(matches!(q.recv_wait_step(false), RecvWaitStep::Done(RecvWaitOutcome::Closed)));
    match q.send_wait_step(9, false) {
        SendWaitStep::Done(SendWaitOutcome::Closed(v)) => assert_eq!(v, 9),
        other => panic!("expected closed, got {other:?}"),
    }
}

#[test]
fn waiting_receive_times_out_only_after_deadline() {
    let mut q: BoundedQueue<u8> = BoundedQueue::default_bounded();
    assert_eq!(q.capacity(), DEFAULT_QUEUE_CAPACITY);
    assert!(matches!(q.recv_wait_step(false), RecvWaitStep::Wait));
    assert!(matches!(q.recv_wait_step(true), RecvWaitStep::Done(RecvWaitOutcome::Timeout)));
    let stats = q.stats();
    assert_eq!(stats.recv_empty, 2);
    assert_eq!(stats.recv_timeouts, 1);
    assert!(q.is_empty());
}

//! Tasks that become due.
use aleph_bft::duration::Duration;
use aleph_bft::task_queue::TaskQueue;
use std::time::Instant;

fn wait(duration: Duration) {
    let start = Instant::now();
    while start.elapsed().as_nanos() < duration.as_nanos() {}
}

#[test]
fn test_scheduling() {
    let mut q = TaskQueue::new();
    q.schedule_now(1u32);
    q.schedule_in(2, Duration::from_millis(5));
    q.schedule_in(3, Duration::from_millis(30));

    wait(Duration::from_millis(10));

    assert_eq!(Some(1), q.pop_due_task());
    assert_eq!(Some(2), q.pop_due_task());
    assert_eq!(None, q.pop_due_task());
    assert_eq!(q.len(), 1);

    wait(Duration::from_millis(30));

    assert_eq!(Some(3), q.pop_due_task());
    assert_eq!(None, q.pop_due_task());
}

#[test]
fn most_overdue_task_comes_first() {
    let mut q = TaskQueue::new();
    q.schedule(1u32, 30);
    q.schedule(2, 10);
    q.schedule(3, 20);
    q.schedule(4, 40);
    assert_eq!(Some(2), q.pop_due_task_at(30));
    assert_eq!(Some(3), q.pop_due_task_at(30));
    assert_eq!(Some(1), q.pop_due_task_at(30));
    assert_eq!(None, q.pop_due_task_at(30));
    assert_eq!(Some(4), q.pop_due_task_at(40));
}

#[test]
fn queue_has_a_clock() {
    let q: TaskQueue<u32> = TaskQueue::new();
    let first = q.now();
    wait(Duration::from_millis(2));
    let second = q.now();
    assert!(second >= first + 2_000_000);
    assert!(second < first + 10_000_000_000);
}

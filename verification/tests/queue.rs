use task_pool::queue::{SendError, WorkQueue};
use task_pool::task_manager::TaskManager;

/// A channel delivers what was sent, front first, and reports closure only
/// after the last queued task has been taken.
#[test]
fn send_then_recv_fifo() {
    let mut queue: WorkQueue<u64> = WorkQueue::new();
    assert!(queue.send(1).is_ok());
    assert!(queue.send(2).is_ok());
    assert!(queue.send(3).is_ok());
    queue.close_senders();
    assert_eq!(queue.recv(), Some(1));
    assert_eq!(queue.recv(), Some(2));
    assert_eq!(queue.recv(), Some(3));
    assert_eq!(queue.recv(), None);
}

/// A send to a channel whose consumer is gone fails and returns the very
/// task that was submitted.
#[test]
fn send_to_dead_receiver_returns_task() {
    let mut queue: WorkQueue<u64> = WorkQueue::new();
    queue.close_receiver();
    match queue.send(9) {
        Err(SendError(task)) => assert_eq!(task, 9),
        Ok(()) => panic!("a send to a dead receiver must fail"),
    }
}

/// The worker loop drains a closed channel in order and then stops.
#[test]
fn worker_drains_in_order() {
    let mut queue: WorkQueue<u64> = WorkQueue::new();
    assert!(queue.send(5).is_ok());
    assert!(queue.send(6).is_ok());
    queue.close_senders();
    assert_eq!(TaskManager::thread_worker(queue), vec![5, 6]);
}

use task_pool::queue::SendError;
use task_pool::routing::dispatch_target;
use task_pool::task_manager::TaskManager;

/// The routing formula itself, on exact values.
#[test]
fn dispatch_target_formula() {
    assert_eq!(dispatch_target(0, 4), 0);
    assert_eq!(dispatch_target(5, 4), 1);
    assert_eq!(dispatch_target(7, 4), 3);
    assert_eq!(dispatch_target(8, 4), 0);
    assert_eq!(dispatch_target(12345, 1), 0);
}

/// Eight tasks over four workers: task i lands on worker i mod 4, each task
/// exactly once, and each worker executes its own tasks in submission order.
#[test]
fn round_robin_eight_tasks() {
    let mut pool: TaskManager<u64> = TaskManager::new(4);
    for i in 0..8u64 {
        assert!(pool.work(i).is_ok());
    }
    let queues = pool.shutdown();
    assert_eq!(queues.len(), 4);

    let mut seen: Vec<u64> = Vec::new();
    for (w, queue) in queues.into_iter().enumerate() {
        let executed = TaskManager::thread_worker(queue);
        assert_eq!(executed, vec![w as u64, w as u64 + 4]);
        seen.extend(executed);
    }
    seen.sort();
    assert_eq!(seen, vec![0, 1, 2, 3, 4, 5, 6, 7]);
}

/// With a single worker the pool degenerates to one queue that preserves
/// submission order exactly.
#[test]
fn single_worker_fifo() {
    let mut pool: TaskManager<u64> = TaskManager::new(1);
    for t in [10u64, 11, 12] {
        assert!(pool.work(t).is_ok());
    }
    let mut queues = pool.shutdown();
    let queue = queues.pop().unwrap();
    assert_eq!(TaskManager::thread_worker(queue), vec![10, 11, 12]);
}

/// Two workers; worker 0 dies after taking its first task. The next
/// submission goes to worker 1 and succeeds; the one after that is routed
/// back to worker 0, fails, and hands the task back unchanged; worker 1
/// keeps accepting.
#[test]
fn dead_worker_scenario() {
    let mut pool: TaskManager<u64> = TaskManager::new(2);
    assert!(pool.work(0).is_ok());
    pool.worker_failed(0);
    assert!(pool.work(1).is_ok());
    let rejected = pool.work(2);
    let Err(SendError(task)) = rejected else {
        panic!("a submission routed to a dead worker must fail");
    };
    assert_eq!(task, 2);
    assert!(pool.work(3).is_ok());

    let queues = pool.shutdown();
    let mut traces: Vec<Vec<u64>> = Vec::new();
    for queue in queues.into_iter().skip(1) {
        traces.push(TaskManager::thread_worker(queue));
    }
    assert_eq!(traces, vec![vec![1, 3]]);
}

/// The dispatch counter advances on rejected submissions too: with worker 0
/// dead from the start, submissions keep alternating between a failure at
/// index 0 and a success at index 1.
#[test]
fn counter_advances_on_failure() {
    let mut pool: TaskManager<u64> = TaskManager::new(2);
    pool.worker_failed(0);
    assert!(pool.work(100).is_err());
    assert!(pool.work(101).is_ok());
    assert!(pool.work(102).is_err());
    assert!(pool.work(103).is_ok());

    let mut queues = pool.shutdown();
    let live = queues.pop().unwrap();
    assert_eq!(TaskManager::thread_worker(live), vec![101, 103]);
}

/// Releasing the pool without ever submitting: every worker observes
/// closure at once and terminates without executing anything.
#[test]
fn shutdown_without_tasks() {
    let pool: TaskManager<u64> = TaskManager::new(3);
    let queues = pool.shutdown();
    assert_eq!(queues.len(), 3);
    for queue in queues {
        assert_eq!(TaskManager::thread_worker(queue), Vec::<u64>::new());
    }
}

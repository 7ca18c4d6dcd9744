use rust_http_server::thread_pool::{Id, Message, ThreadPool, WorkerStatus};

fn job(message: Option<Message<u32>>) -> Option<u32> {
    match message {
        Some(Message::NewJob(j)) => Some(j),
        _ => None,
    }
}

fn is_terminate(message: &Option<Message<u32>>) -> bool {
    matches!(message, Some(Message::Terminate))
}

#[test]
fn id_holds_its_number() {
    let id = Id::new(7);
    assert_eq!(id.value(), 7);
    assert_eq!(id.to_string(), "7");
    assert_eq!(Id::new(0).to_string(), "0");
    assert_eq!(Id::new(1234567890).to_string(), "1234567890");
    assert_eq!(Id::new(usize::MAX).to_string(), format!("{}", usize::MAX));
    assert_eq!(Id::new(7), id);
    assert_ne!(Id::new(8), id);
}

#[test]
fn new_pool_waits() {
    let pool: ThreadPool<u32> = ThreadPool::new(8);
    assert_eq!(pool.size(), 8);
    assert_eq!(pool.queue_len(), 0);
    assert!(!pool.is_disposed());
    assert!(!pool.is_joined());
    for w in 0..8 {
        assert_eq!(pool.status(w), Some(WorkerStatus::Waiting));
    }
    assert_eq!(pool.status(8), None);
}

#[test]
fn a_job_is_received_by_one_worker() {
    let mut pool: ThreadPool<u32> = ThreadPool::new(3);
    pool.execute(41);
    assert_eq!(pool.queue_len(), 1);
    assert_eq!(job(pool.receive(1)), Some(41));
    assert_eq!(pool.queue_len(), 0);
    assert_eq!(pool.status(1), Some(WorkerStatus::Running));
    assert!(pool.receive(0).is_none());
    assert!(pool.receive(2).is_none());
    assert!(pool.receive(1).is_none());
    assert_eq!(pool.status(0), Some(WorkerStatus::Waiting));
    assert_eq!(pool.status(2), Some(WorkerStatus::Waiting));
}

#[test]
fn jobs_leave_in_the_order_of_submission() {
    let mut pool: ThreadPool<u32> = ThreadPool::new(2);
    for j in 0..5 {
        pool.execute(j);
    }
    let mut seen = Vec::new();
    for _ in 0..5 {
        seen.push(job(pool.receive(0)).unwrap());
        assert!(pool.finish(0));
    }
    assert_eq!(seen, vec![0, 1, 2, 3, 4]);
}

#[test]
fn a_saturated_pool_queues_the_next_job() {
    let n = 4;
    let mut pool: ThreadPool<u32> = ThreadPool::new(n);
    for w in 0..n {
        pool.execute(w as u32);
        assert_eq!(job(pool.receive(w)), Some(w as u32));
    }
    assert_eq!(pool.queue_len(), 0);
    pool.execute(99);
    assert_eq!(pool.queue_len(), 1);
    for w in 0..n {
        assert!(pool.receive(w).is_none());
    }
    assert_eq!(pool.queue_len(), 1);
    assert!(pool.finish(2));
    assert_eq!(job(pool.receive(2)), Some(99));
    assert_eq!(pool.queue_len(), 0);
}

#[test]
fn finish_of_an_idle_worker_changes_nothing() {
    let mut pool: ThreadPool<u32> = ThreadPool::new(1);
    assert!(!pool.finish(0));
    assert!(!pool.finish(5));
    assert!(pool.receive(5).is_none());
    assert_eq!(pool.status(0), Some(WorkerStatus::Waiting));
}

#[test]
fn disposal_sends_one_terminate_for_each_worker() {
    let mut pool: ThreadPool<u32> = ThreadPool::new(3);
    pool.execute(1);
    pool.dispose();
    assert!(pool.is_disposed());
    assert_eq!(pool.queue_len(), 4);
    assert_eq!(job(pool.receive(0)), Some(1));
    for w in [1, 2] {
        assert!(is_terminate(&pool.receive(w)));
        assert_eq!(pool.status(w), Some(WorkerStatus::Stopped));
        assert!(pool.receive(w).is_none());
    }
    assert_eq!(pool.queue_len(), 1);
    assert!(pool.finish(0));
    assert!(is_terminate(&pool.receive(0)));
    assert_eq!(pool.queue_len(), 0);
    for w in 0..3 {
        assert_eq!(pool.status(w), Some(WorkerStatus::Stopped));
    }
    assert!(pool.is_joined());
}

#[test]
fn every_job_runs_before_the_workers_stop() {
    let n = 3;
    let mut pool: ThreadPool<u32> = ThreadPool::new(n);
    for j in 0..10 {
        pool.execute(j);
    }
    pool.dispose();
    let mut done = Vec::new();
    let mut running: Vec<Option<u32>> = vec![None; n];
    let mut turn = 0;
    while !pool.is_joined() {
        let w = turn % n;
        turn += 1;
        if let Some(j) = running[w].take() {
            assert!(pool.finish(w));
            done.push(j);
        }
        match pool.receive(w) {
            Some(Message::NewJob(j)) => running[w] = Some(j),
            Some(Message::Terminate) => assert_eq!(done.len() + running.iter().flatten().count(), 10),
            None => {}
        }
        assert!(turn < 1000);
    }
    done.sort();
    assert_eq!(done, (0..10).collect::<Vec<u32>>());
    assert_eq!(pool.queue_len(), 0);
}

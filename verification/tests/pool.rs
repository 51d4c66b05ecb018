use worker_pool::pool::ThreadPool;
use worker_pool::queue::{JobQueue, Message, PoolError};

#[test]
fn zero_size_pool_is_rejected() {
    let r = ThreadPool::<usize>::construct(0);
    assert!(matches!(r, Err(PoolError::ZeroSize)));
}

#[test]
fn construct_accepts_every_positive_size() {
    for size in 1..8usize {
        let pool = ThreadPool::<usize>::construct(size).unwrap();
        assert_eq!(pool.worker_count(), size);
        assert!(!pool.is_shut_down());
        assert_eq!(pool.completed_log().len(), 0);
    }
}

#[test]
fn teardown_with_no_jobs_returns_at_once() {
    let mut pool = ThreadPool::<usize>::new(3);
    assert!(pool.teardown().is_ok());
    assert!(pool.is_shut_down());
    assert_eq!(pool.completed_log().len(), 0);
    for i in 0..3 {
        assert!(pool.worker_terminated(i));
    }
}

#[test]
fn execute_after_teardown_is_an_error() {
    let mut pool = ThreadPool::<usize>::new(2);
    pool.execute(1).unwrap();
    assert!(pool.teardown().is_ok());
    let r = pool.execute(2);
    assert!(matches!(r, Err(PoolError::Shutdown)));
    // The rejected job was never run.
    assert_eq!(pool.completed_log().len(), 1);
}

#[test]
fn second_teardown_is_reported_not_repeated() {
    let mut pool = ThreadPool::<usize>::new(1);
    assert!(pool.teardown().is_ok());
    assert!(matches!(pool.teardown(), Err(PoolError::Shutdown)));
    assert!(pool.is_shut_down());
}

#[test]
fn every_counting_job_runs_exactly_once() {
    // For a range of pool sizes and job counts, all jobs are completed by
    // teardown, each exactly once.
    for n in 1..5usize {
        for m in [0usize, 1, 2, 7, 40] {
            let mut pool = ThreadPool::<usize>::new(n);
            for job in 0..m {
                pool.execute(job).unwrap();
            }
            assert!(pool.teardown().is_ok());
            let mut log = pool.completed_log().clone();
            log.sort();
            let expected: Vec<usize> = (0..m).collect();
            assert_eq!(log, expected);
        }
    }
}

#[test]
fn five_indexed_jobs_on_two_workers() {
    // Pool of 2; submit 5 jobs that each record their own index; after
    // teardown the log holds exactly the 5 indices, none missing, none
    // doubled, in whatever order they finished.
    let mut pool = ThreadPool::<usize>::new(2);
    for index in 0..5usize {
        pool.execute(index).unwrap();
    }
    assert!(pool.teardown().is_ok());
    let log = pool.completed_log();
    assert_eq!(log.len(), 5);
    let mut sorted = log.clone();
    sorted.sort();
    sorted.dedup();
    assert_eq!(sorted, vec![0, 1, 2, 3, 4]);
    assert!(pool.worker_terminated(0));
    assert!(pool.worker_terminated(1));
}

#[test]
fn a_busy_worker_does_not_block_the_other() {
    // Worker 0 stays busy on its job while worker 1 receives and completes
    // the two remaining jobs on its own.
    let mut pool = ThreadPool::<usize>::new(2);
    pool.execute(10).unwrap();
    pool.execute(11).unwrap();
    pool.execute(12).unwrap();
    assert_eq!(pool.pending_count(), 3);
    pool.worker_receive(0);
    assert!(pool.worker_running(0));
    assert_eq!(pool.pending_count(), 2);
    pool.worker_receive(1);
    pool.complete_job(1);
    pool.worker_receive(1);
    pool.complete_job(1);
    assert!(pool.worker_running(0));
    assert_eq!(pool.completed_log(), &vec![11, 12]);
    pool.complete_job(0);
    assert_eq!(pool.completed_log(), &vec![11, 12, 10]);
    assert!(pool.teardown().is_ok());
    assert_eq!(pool.completed_log().len(), 3);
}

#[test]
fn teardown_finishes_a_job_left_in_flight() {
    let mut pool = ThreadPool::<usize>::new(2);
    pool.execute(5).unwrap();
    pool.worker_receive(0);
    assert!(pool.worker_running(0));
    // Teardown completes the in-flight job before stopping the worker.
    assert!(pool.teardown().is_ok());
    assert_eq!(pool.completed_log(), &vec![5]);
}

#[test]
fn a_single_worker_completes_jobs_in_submission_order() {
    let mut pool = ThreadPool::<usize>::new(1);
    for job in 0..4usize {
        pool.execute(job).unwrap();
    }
    assert!(pool.teardown().is_ok());
    assert_eq!(pool.completed_log(), &vec![0, 1, 2, 3]);
}

#[test]
fn messages_leave_the_queue_in_enqueue_order() {
    let mut q: JobQueue<u64> = JobQueue::new();
    q.enqueue(Message::NewJob(1)).unwrap();
    q.enqueue(Message::NewJob(2)).unwrap();
    q.enqueue(Message::Terminate).unwrap();
    assert_eq!(q.len(), 3);
    assert!(matches!(q.receive(), Some(Message::NewJob(1))));
    assert!(matches!(q.receive(), Some(Message::NewJob(2))));
    assert!(matches!(q.receive(), Some(Message::Terminate)));
    assert!(q.receive().is_none());
}

#[test]
fn a_closed_queue_refuses_messages() {
    let mut q: JobQueue<u64> = JobQueue::new();
    q.enqueue(Message::NewJob(9)).unwrap();
    q.close();
    assert!(matches!(q.enqueue(Message::NewJob(10)), Err(PoolError::Shutdown)));
    // What was already in transit is still there.
    assert_eq!(q.len(), 1);
}

use multi_thread_rust::pool::Dequeued;
use multi_thread_rust::pool::Job;
use multi_thread_rust::pool::JobOutcome;
use multi_thread_rust::pool::SubmitError;
use multi_thread_rust::pool::ThreadPool;
use multi_thread_rust::pool::WorkerStatus;

fn job(tag: u64) -> Job {
    Job { tag, faulty: false }
}

fn bad_job(tag: u64) -> Job {
    Job { tag, faulty: true }
}

/// Collect the tags of all completed jobs, sorted, to compare as a multiset.
fn completed_tags_sorted(pool: &ThreadPool) -> Vec<u64> {
    let mut tags = Vec::new();
    for i in 0..pool.completed_count() {
        tags.push(pool.completed_job(i).tag);
    }
    tags.sort_unstable();
    tags
}

#[test]
fn submit_then_shutdown_executes_each_job_once() {
    let mut pool = ThreadPool::new(2);
    for t in 0..5 {
        assert_eq!(pool.execute(job(t)), Ok(()));
    }
    pool.shutdown();
    assert_eq!(pool.completed_count(), 5);
    assert_eq!(completed_tags_sorted(&pool), vec![0, 1, 2, 3, 4]);
}

#[test]
fn jobs_are_dispatched_in_submission_order() {
    let mut pool = ThreadPool::new(3);
    for t in 0..6 {
        assert_eq!(pool.execute(job(t)), Ok(()));
    }
    // Workers fetch in an arbitrary pattern; the hand-off is still FIFO.
    let order = [0usize, 2, 1];
    for (k, &w) in order.iter().cycle().take(6).enumerate() {
        match pool.worker_fetch(w) {
            Dequeued::Job { job } => {
                assert_eq!(job.tag, k as u64);
                pool.worker_finish(w, job);
            }
            other => panic!("expected a job, got {:?}", other),
        }
    }
    for i in 0..pool.dispatched_count() {
        assert_eq!(pool.dispatched_job(i).tag, i as u64);
    }
}

#[test]
fn shutdown_of_empty_open_pool_returns_promptly() {
    let mut pool = ThreadPool::new(3);
    pool.shutdown();
    assert!(pool.is_closed());
    assert_eq!(pool.completed_count(), 0);
    assert_eq!(pool.pending_count(), 0);
    for w in 0..pool.worker_count() {
        assert_eq!(pool.worker_status(w), WorkerStatus::Terminated);
    }
}

#[test]
fn shutdown_drains_everything_queued_before_it() {
    let mut pool = ThreadPool::new(2);
    for t in 0..7 {
        assert_eq!(pool.execute(job(t)), Ok(()));
    }
    assert_eq!(pool.pending_count(), 7);
    pool.shutdown();
    assert_eq!(pool.pending_count(), 0);
    assert_eq!(pool.completed_count(), 7);
    assert_eq!(completed_tags_sorted(&pool), (0..7).collect::<Vec<u64>>());
}

#[test]
fn submission_after_close_is_rejected() {
    let mut pool = ThreadPool::new(1);
    assert_eq!(pool.execute(job(1)), Ok(()));
    pool.close();
    assert_eq!(pool.execute(job(2)), Err(SubmitError::QueueClosed));
    pool.shutdown();
    // The rejected job was never executed; the accepted one was.
    assert_eq!(pool.completed_count(), 1);
    assert_eq!(pool.completed_job(0).tag, 1);
    // After shutdown the queue is still closed: still rejected.
    assert_eq!(pool.execute(job(3)), Err(SubmitError::QueueClosed));
    assert_eq!(pool.completed_count(), 1);
}

#[test]
fn interleaved_producers_lose_no_submission() {
    let mut pool = ThreadPool::new(4);
    // Eight producers, fifty jobs each, submissions interleaved round-robin
    // as a concurrent run would serialise them at the queue.
    for k in 0..50u64 {
        for producer in 0..8u64 {
            assert_eq!(pool.execute(job(producer * 100 + k)), Ok(()));
        }
    }
    pool.shutdown();
    assert_eq!(pool.completed_count(), 400);
    let mut expected: Vec<u64> = Vec::new();
    for producer in 0..8u64 {
        for k in 0..50u64 {
            expected.push(producer * 100 + k);
        }
    }
    expected.sort_unstable();
    assert_eq!(completed_tags_sorted(&pool), expected);
}

#[test]
fn faulty_job_does_not_stop_later_jobs() {
    let mut pool = ThreadPool::new(1);
    assert_eq!(pool.execute(job(1)), Ok(()));
    assert_eq!(pool.execute(bad_job(2)), Ok(()));
    assert_eq!(pool.execute(job(3)), Ok(()));
    // Drive the single worker by hand to watch each outcome.
    let expected = [
        (1u64, JobOutcome::Completed),
        (2u64, JobOutcome::Faulted),
        (3u64, JobOutcome::Completed),
    ];
    for (tag, outcome) in expected {
        match pool.worker_fetch(0) {
            Dequeued::Job { job } => {
                assert_eq!(job.tag, tag);
                assert_eq!(pool.worker_finish(0, job), outcome);
                assert_eq!(pool.worker_status(0), WorkerStatus::Idle);
            }
            other => panic!("expected a job, got {:?}", other),
        }
    }
    assert_eq!(pool.completed_count(), 3);
    pool.shutdown();
    assert_eq!(pool.completed_count(), 3);
}

#[test]
fn worker_blocks_on_empty_open_queue() {
    let mut pool = ThreadPool::new(2);
    assert_eq!(pool.worker_fetch(0), Dequeued::WouldBlock);
    assert_eq!(pool.worker_status(0), WorkerStatus::Idle);
    assert_eq!(pool.completed_count(), 0);
}

#[test]
fn worker_terminates_on_closed_empty_queue() {
    let mut pool = ThreadPool::new(2);
    pool.close();
    assert_eq!(pool.worker_fetch(0), Dequeued::NoMoreWork);
    assert_eq!(pool.worker_status(0), WorkerStatus::Terminated);
    assert_eq!(pool.worker_status(1), WorkerStatus::Idle);
}

#[test]
fn shutdown_is_idempotent() {
    let mut pool = ThreadPool::new(2);
    assert_eq!(pool.execute(job(9)), Ok(()));
    pool.shutdown();
    assert_eq!(pool.completed_count(), 1);
    pool.shutdown();
    assert_eq!(pool.completed_count(), 1);
    assert_eq!(pool.pending_count(), 0);
    for w in 0..pool.worker_count() {
        assert_eq!(pool.worker_status(w), WorkerStatus::Terminated);
    }
}

#[test]
fn run_to_completion_runs_every_task() {
    let pool = multi_thread_rust::pool::run_to_completion(4, 10);
    assert!(pool.is_closed());
    assert_eq!(pool.worker_count(), 4);
    assert_eq!(pool.completed_count(), 10);
    assert_eq!(pool.pending_count(), 0);
    assert_eq!(completed_tags_sorted(&pool), (0..10).collect::<Vec<u64>>());
}

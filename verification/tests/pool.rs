use threadpool::pool::ThreadPool;
use threadpool::pool::Worker;
use threadpool::pool::WorkerAction;
use threadpool::pool::WorkerEvent;
use threadpool::pool::WorkerState;
use threadpool::pool::worker_step;

#[test]
fn construction_yields_requested_workers() {
    for n in 1..6 {
        let pool = ThreadPool::new(n);
        assert_eq!(n, pool.num_workers());
        assert!(pool.is_accepting());
        assert_eq!(0, pool.queued_len());
        assert_eq!(0, pool.completed_len());
        for i in 0..n {
            assert_eq!(i, pool.worker_id_at(i));
            assert_eq!(WorkerState::Running, pool.worker_state_at(i));
        }
    }
}

#[test]
fn every_fresh_worker_can_execute_a_job() {
    let n = 3;
    let mut pool = ThreadPool::new(n);
    for i in 0..n {
        assert_eq!(WorkerState::Running, pool.worker_state_at(i));
        pool.execute(i as u64);
        assert_eq!(Some(i as u64), pool.run_pending_job());
    }
    assert_eq!(n, pool.completed_len());
}

#[test]
fn zero_size_construction_fails() {
    assert!(ThreadPool::try_new(0).is_none());
    assert!(ThreadPool::try_new(1).is_some());
}

#[test]
fn fresh_worker_starts_running() {
    let worker = Worker::new(7);
    assert_eq!(7, worker.id);
    assert_eq!(WorkerState::Running, worker.state);
}

#[test]
fn worker_state_machine_transitions() {
    assert_eq!(
        (WorkerState::Executing, WorkerAction::RunJob),
        worker_step(WorkerState::Running, WorkerEvent::JobReceived)
    );
    assert_eq!(
        (WorkerState::Terminated, WorkerAction::Exit),
        worker_step(WorkerState::Running, WorkerEvent::ChannelClosed)
    );
    assert_eq!(
        (WorkerState::Running, WorkerAction::AwaitNext),
        worker_step(WorkerState::Executing, WorkerEvent::JobCompleted)
    );
}

#[test]
fn jobs_leave_the_queue_in_submission_order() {
    let mut pool = ThreadPool::new(2);
    pool.execute(10);
    pool.execute(20);
    pool.execute(30);
    assert_eq!(3, pool.queued_len());
    assert_eq!(Some(10), pool.run_pending_job());
    assert_eq!(Some(20), pool.run_pending_job());
    assert_eq!(Some(30), pool.run_pending_job());
    assert_eq!(None, pool.run_pending_job());
}

#[test]
fn shutdown_drains_and_terminates_workers() {
    let mut pool = ThreadPool::new(3);
    pool.execute(1);
    pool.execute(2);
    pool.shutdown();
    assert!(!pool.is_accepting());
    assert_eq!(0, pool.queued_len());
    assert_eq!(vec![1, 2], pool.completed_log());
    for i in 0..3 {
        assert_eq!(i, pool.worker_id_at(i));
        assert_eq!(WorkerState::Terminated, pool.worker_state_at(i));
    }
}

#[test]
fn shutdown_is_idempotent() {
    let mut pool = ThreadPool::new(2);
    pool.execute(5);
    pool.shutdown();
    pool.shutdown();
    assert_eq!(vec![5], pool.completed_log());
    assert_eq!(0, pool.queued_len());
}

#[test]
fn scenario_counter_sees_every_job() {
    let mut pool = ThreadPool::new(4);
    let mut counter: u64 = 0;
    for i in 0..100 {
        pool.execute(i);
    }
    pool.shutdown();
    for _job in pool.completed_log() {
        counter += 1;
    }
    assert_eq!(100, counter);
    assert_eq!(100, pool.completed_len());
}

#[test]
fn scenario_single_worker_preserves_order() {
    let mut pool = ThreadPool::new(1);
    pool.execute(1);
    pool.execute(2);
    pool.execute(3);
    pool.shutdown();
    assert_eq!(vec![1, 2, 3], pool.completed_log());
}

#[test]
fn scenario_submission_after_shutdown_is_dropped() {
    let mut pool = ThreadPool::new(2);
    pool.shutdown();
    pool.execute(9);
    assert_eq!(0, pool.queued_len());
    assert_eq!(0, pool.completed_len());
    assert!(!pool.is_accepting());
}

#[test]
fn jobs_run_exactly_once_each() {
    let mut pool = ThreadPool::new(3);
    for i in 0..10 {
        pool.execute(i);
    }
    pool.shutdown();
    let log = pool.completed_log();
    for i in 0..10u64 {
        assert_eq!(1, log.iter().filter(|&&job| job == i).count());
    }
}

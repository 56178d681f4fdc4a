use philosophers::worker::{on_message, InvalidPoolSize, Message, PoolLedger, WorkerAction};

#[test]
fn zero_workers_is_refused() {
    assert_eq!(Err(InvalidPoolSize), PoolLedger::new(0));
    assert!(PoolLedger::new(1).is_ok());
}

#[test]
fn workers_run_jobs_and_stop_on_terminate() {
    assert_eq!(WorkerAction::RunJob, on_message(Message::NewJob));
    assert_eq!(WorkerAction::Exit, on_message(Message::Terminate));
}

#[test]
fn more_jobs_than_workers_all_run_once() {
    let mut pool = PoolLedger::new(2).unwrap();
    for _ in 0..5 {
        assert!(pool.submit());
    }
    assert_eq!(2, pool.shutdown());
    assert!(!pool.submit());
    let mut taken = Vec::new();
    for _ in 0..7 {
        taken.push(pool.take().unwrap());
    }
    assert_eq!(vec![Message::NewJob; 5], taken[..5].to_vec());
    assert_eq!(vec![Message::Terminate; 2], taken[5..].to_vec());
    assert_eq!(None, pool.take());
    assert_eq!(5, pool.completed);
    assert_eq!(0, pool.live);
}

#[test]
fn one_worker_runs_every_job() {
    let mut pool = PoolLedger::new(1).unwrap();
    for _ in 0..3 {
        assert!(pool.submit());
    }
    assert_eq!(1, pool.shutdown());
    assert_eq!(0, pool.shutdown());
    for _ in 0..3 {
        assert_eq!(Some(Message::NewJob), pool.take());
    }
    assert_eq!(Some(Message::Terminate), pool.take());
    assert_eq!(None, pool.take());
    assert_eq!(3, pool.completed);
}

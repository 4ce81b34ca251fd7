use concurrent_network_server::pool::{Claim, WorkerPool, WorkerStatus};

#[test]
fn every_job_is_claimed_exactly_once() {
    let size = 3;
    let jobs = 10;
    let mut pool: WorkerPool<u32> = WorkerPool::new(size);
    for j in 0..jobs {
        assert_eq!(pool.submit(j), Ok(()));
    }
    assert_eq!(pool.pending(), jobs as usize);
    let mut runs: Vec<(usize, u32)> = Vec::new();
    let mut busy: Vec<Option<u32>> = vec![None; size];
    loop {
        let mut progressed = false;
        for w in 0..size {
            if let Some(_) = busy[w] {
                pool.finish(w);
                busy[w] = None;
                progressed = true;
            }
            if pool.status(w) == WorkerStatus::Idle {
                match pool.claim(w) {
                    Claim::Job(j) => {
                        assert_eq!(pool.status(w), WorkerStatus::Executing);
                        runs.push((w, j));
                        busy[w] = Some(j);
                        progressed = true;
                    }
                    Claim::Wait => {}
                    Claim::Stop => panic!("open pool told a worker to stop"),
                }
            }
        }
        if !progressed {
            break;
        }
    }
    let mut claimed: Vec<u32> = runs.iter().map(|r| r.1).collect();
    assert_eq!(claimed, (0..jobs).collect::<Vec<u32>>());
    claimed.sort();
    claimed.dedup();
    assert_eq!(claimed.len(), jobs as usize);
    assert!(runs.iter().any(|r| r.0 == 2));
    assert_eq!(pool.pending(), 0);
}

#[test]
fn shutdown_refuses_new_jobs_and_drains_queued_ones() {
    let mut pool: WorkerPool<&str> = WorkerPool::new(2);
    assert_eq!(pool.size(), 2);
    assert_eq!(pool.submit("a"), Ok(()));
    assert_eq!(pool.submit("b"), Ok(()));
    match pool.claim(0) {
        Claim::Job(j) => assert_eq!(j, "a"),
        _ => panic!("expected a job"),
    }
    pool.close();
    assert!(pool.is_closed());
    assert_eq!(pool.submit("late"), Err("late"));
    assert_eq!(pool.status(0), WorkerStatus::Executing);
    match pool.claim(1) {
        Claim::Job(j) => assert_eq!(j, "b"),
        _ => panic!("expected the queued job"),
    }
    pool.finish(0);
    pool.finish(1);
    assert!(matches!(pool.claim(0), Claim::Stop));
    assert_eq!(pool.status(0), WorkerStatus::ShutDown);
    assert!(matches!(pool.claim(1), Claim::Stop));
    assert_eq!(pool.pending(), 0);
}

#[test]
fn idle_worker_waits_on_an_empty_open_pool() {
    let mut pool: WorkerPool<u8> = WorkerPool::new(1);
    assert!(matches!(pool.claim(0), Claim::Wait));
    assert_eq!(pool.status(0), WorkerStatus::Idle);
    assert_eq!(pool.submit(5), Ok(()));
    assert!(matches!(pool.claim(0), Claim::Job(5)));
}

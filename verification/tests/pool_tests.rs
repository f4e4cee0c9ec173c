//! The worker pool's queue discipline: more jobs than workers all run,
//! exactly once, oldest first.

use blitzkrieg::PoolQueue;

#[test]
fn more_jobs_than_workers_all_complete_exactly_once() {
    let workers = 2;
    let jobs = 7;
    let mut pool = PoolQueue::new(workers);
    for _ in 0..jobs {
        pool.submit();
    }
    let mut executed: Vec<u64> = Vec::new();
    loop {
        match pool.claim() {
            None => break,
            Some(id) => {
                executed.push(id);
                pool.complete(id);
            }
        }
    }
    // every submitted job ran exactly once, in submission order
    assert_eq!(executed.len() as u64, jobs);
    assert_eq!(pool.submitted_count(), jobs);
    for i in 0..jobs {
        assert_eq!(executed[i as usize], i);
    }
}

#[test]
fn claim_is_first_in_first_out() {
    let mut pool = PoolQueue::new(1);
    let a = pool.submit();
    let b = pool.submit();
    assert_eq!(pool.claim(), Some(a));
    let c = pool.submit();
    assert_eq!(pool.claim(), Some(b));
    assert_eq!(pool.claim(), Some(c));
    assert_eq!(pool.claim(), None);
    pool.complete(a);
    pool.complete(b);
    pool.complete(c);
}

#[test]
fn closed_queue_still_drains() {
    let mut pool = PoolQueue::new(1);
    let a = pool.submit();
    pool.close();
    assert_eq!(pool.claim(), Some(a));
    pool.complete(a);
    assert_eq!(pool.claim(), None);
}

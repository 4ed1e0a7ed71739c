use linkrelay::pool::{TaskPool, MAX_IN_FLIGHT};

fn jobs(n: usize) -> Vec<String> {
    (0..n).map(|i| format!("https://vm.tiktok.com/{i}")).collect()
}

#[test]
fn pool_hands_out_jobs_in_order() {
    let mut pool = TaskPool::new(jobs(3));
    assert_eq!(pool.try_start().as_deref(), Some("https://vm.tiktok.com/0"));
    assert_eq!(pool.try_start().as_deref(), Some("https://vm.tiktok.com/1"));
    assert_eq!(pool.try_start().as_deref(), Some("https://vm.tiktok.com/2"));
    assert_eq!(pool.try_start(), None);
}

#[test]
fn pool_never_exceeds_the_bound() {
    // ten candidates in one message: at most four tasks ever run at once
    let mut pool = TaskPool::new(jobs(10));
    let mut in_flight: usize = 0;
    let mut max_seen: usize = 0;
    let mut handed_out: Vec<String> = Vec::new();
    // a driver that finishes one task whenever no further task can start
    while !pool.is_done() {
        while let Some(job) = pool.try_start() {
            handed_out.push(job);
            in_flight += 1;
            max_seen = max_seen.max(in_flight);
        }
        if pool.has_in_flight() {
            pool.finish();
            in_flight -= 1;
        }
    }
    assert_eq!(max_seen, MAX_IN_FLIGHT);
    assert!(max_seen <= 4);
    assert_eq!(handed_out, jobs(10));
}

#[test]
fn fifth_task_waits_for_a_slot() {
    let mut pool = TaskPool::new(jobs(10));
    for _ in 0..MAX_IN_FLIGHT {
        assert!(pool.try_start().is_some());
    }
    // the bound is reached: nothing more starts
    assert_eq!(pool.try_start(), None);
    // one task finishing frees exactly one slot
    pool.finish();
    assert_eq!(pool.try_start().as_deref(), Some("https://vm.tiktok.com/4"));
    assert_eq!(pool.try_start(), None);
}

#[test]
fn empty_pool_is_done_at_once() {
    let mut pool = TaskPool::new(Vec::new());
    assert!(pool.is_done());
    assert_eq!(pool.try_start(), None);
}

use rss_index::admission::{
    ThreadCount, MAX_THREADS_FEEDS, MAX_THREADS_SITES, MAX_THREADS_TOTAL,
};
use rss_index::pool::{PoolModel, PoolState};
use rss_index::sync::CvarLock;

#[test]
fn feed_tier_is_capped() {
    let mut tc = ThreadCount::new();
    for _ in 0..MAX_THREADS_FEEDS {
        assert!(tc.try_acquire_feed());
        assert!(tc.feeds_count <= MAX_THREADS_FEEDS);
    }
    assert!(!tc.try_acquire_feed());
    assert_eq!(tc.feeds_count, MAX_THREADS_FEEDS);
    tc.release_feed();
    assert_eq!(tc.feeds_count, MAX_THREADS_FEEDS - 1);
    assert!(tc.try_acquire_feed());
}

#[test]
fn total_tier_is_capped() {
    let mut tc = ThreadCount::new();
    for _ in 0..MAX_THREADS_TOTAL {
        assert!(tc.try_acquire_total());
        assert!(tc.total_count <= MAX_THREADS_TOTAL);
    }
    assert!(!tc.try_acquire_total());
    tc.release_total();
    assert!(tc.try_acquire_total());
    assert_eq!(tc.total_count, MAX_THREADS_TOTAL);
}

#[test]
fn site_tiers_are_independent_and_capped() {
    let mut tc = ThreadCount::new();
    let a = "a.example".to_string();
    let b = "b.example".to_string();
    for _ in 0..MAX_THREADS_SITES {
        assert!(tc.try_acquire_site(&a));
    }
    assert!(!tc.try_acquire_site(&a));
    // a full tier for one site leaves another site's tier open
    assert!(tc.try_acquire_site(&b));
    tc.release_site(&a);
    assert!(tc.try_acquire_site(&a));
    // per-tier caps never exceeded
    for (_, count) in &tc.sites_count {
        assert!(*count <= MAX_THREADS_SITES);
    }
    // a blocked site acquisition consumed nothing elsewhere
    assert_eq!(tc.feeds_count, 0);
    assert_eq!(tc.total_count, 0);
}

#[test]
fn pool_runs_all_tasks_before_stopping() {
    let mut pool = PoolModel::new(3);
    for id in 0..5u64 {
        assert!(pool.execute(id));
    }
    assert_eq!(pool.submitted.len(), 5);
    pool.shutdown();
    assert!(pool.state == PoolState::Stopped);
    assert_eq!(pool.workers_alive, 0);
    // every accepted task ran exactly once, in submission order
    assert_eq!(pool.executed, vec![0, 1, 2, 3, 4]);
    assert_eq!(pool.executed, pool.submitted);
}

#[test]
fn pool_refuses_tasks_after_shutdown_begins() {
    let mut pool = PoolModel::new(2);
    assert!(pool.execute(7));
    pool.begin_shutdown();
    assert!(!pool.execute(8));
    assert_eq!(pool.submitted, vec![7]);
}

#[test]
fn cvar_lock_guards_counters() {
    let lock = CvarLock::new(ThreadCount::new());
    let mut tc = lock.mutex.lock().unwrap();
    assert!(tc.try_acquire_feed());
    assert_eq!(tc.feeds_count, 1);
    drop(tc);
    lock.condvar.notify_one();
}

use std::cell::Cell;

use embed_server::evictable_pool::{
    build_evictable_pool, eviction_tick_secs, AcquireError, Claim, EvictablePool,
};
use embed_server::metrics::MetricLog;

const NOW: u64 = 100_000;

fn make_pool(size: usize, idle_secs: u64) -> EvictablePool<u32> {
    EvictablePool::from_items(vec![42u32; size], idle_secs, "test-model", NOW)
}

fn factory() -> Result<u32, String> {
    Ok(42)
}

fn names(log: MetricLog) -> Vec<String> {
    log.into_updates().iter().map(|u| u.name.clone()).collect()
}

#[test]
fn eviction_disabled_by_default() {
    let mut log = MetricLog::new();
    let mut pool = make_pool(2, 0);
    {
        let guard = pool.acquire(&factory, NOW, &mut log).expect("should acquire");
        pool.release(guard, NOW);
    }
    pool.force_last_used_ago(9999, NOW);
    assert_eq!(pool.evict_idle(1, NOW, &mut log), 0, "eviction disabled => no evictions");
}

#[test]
fn eviction_after_idle_threshold() {
    let mut log = MetricLog::new();
    let mut pool = make_pool(2, 1);
    {
        let guard = pool.acquire(&factory, NOW, &mut log).expect("should acquire");
        pool.release(guard, NOW);
    }
    pool.force_last_used_ago(2, NOW);

    let evicted = pool.evict_idle(1, NOW, &mut log);
    assert_eq!(
        evicted, 2,
        "both idle slots should be evicted after threshold"
    );
    assert_eq!(pool.evict_idle(1, NOW, &mut log), 0, "a second sweep finds nothing");
}

#[test]
fn a_slot_idle_for_just_the_threshold_is_kept() {
    let mut log = MetricLog::new();
    let mut pool = make_pool(1, 1);
    pool.force_last_used_ago(3, NOW);
    assert_eq!(pool.evict_idle(3, NOW, &mut log), 0);
    assert!(!pool.slot_is_evicted(0));
    assert_eq!(pool.evict_idle(2, NOW, &mut log), 1);
    assert!(pool.slot_is_evicted(0));
}

#[test]
fn lazy_reinit_after_eviction() {
    let mut log = MetricLog::new();
    let mut pool = make_pool(1, 1);
    {
        let guard = pool.acquire(&factory, NOW, &mut log).expect("acquire 1");
        pool.release(guard, NOW);
    }
    pool.force_last_used_ago(5, NOW);
    let evicted = pool.evict_idle(1, NOW, &mut log);
    assert_eq!(evicted, 1, "one slot evicted");

    let guard = pool.acquire(&factory, NOW, &mut log).expect("reinit acquire");
    assert_eq!(*guard.get(), 42u32, "reinit should produce factory value");
}

#[test]
fn factory_error_returns_err_and_slot_stays_alive() {
    let calls = Cell::new(0u32);
    let flaky = || -> Result<u32, String> {
        let n = calls.get();
        calls.set(n + 1);
        if n == 0 {
            Err("factory fail".to_string())
        } else {
            Ok(99u32)
        }
    };
    let mut log = MetricLog::new();
    let mut pool = EvictablePool::from_items(vec![0u32], 1, "test-model", NOW);

    // Force evict.
    pool.force_last_used_ago(10, NOW);
    pool.evict_idle(1, NOW, &mut log);
    assert!(pool.slot_is_evicted(0), "slot must be evicted");

    // First acquire: factory fails → Err.
    let result = pool.acquire(&flaky, NOW, &mut log);
    assert!(
        matches!(&result, Err(AcquireError::ReinitFailed(e)) if e == "factory fail"),
        "acquire must return Err when factory fails"
    );

    // Slot stays None, busy cleared.
    assert!(
        pool.slot_is_evicted(0),
        "slot stays None after reinit failure"
    );
    assert!(
        !pool.slot_is_busy(0),
        "busy must be cleared after reinit failure"
    );

    // Second acquire: factory succeeds.
    let guard = pool
        .acquire(&flaky, NOW, &mut log)
        .expect("second acquire must succeed after factory recovers");
    assert_eq!(*guard.get(), 99u32);
}

#[test]
fn tick_interval_quarter_of_idle_secs() {
    assert_eq!(eviction_tick_secs(120), 30);
    assert_eq!(eviction_tick_secs(40), 10);
    assert_eq!(eviction_tick_secs(16), 5, "minimum 5s applies");
    assert_eq!(
        eviction_tick_secs(4),
        5,
        "aggressive threshold: 4s idle → 5s tick minimum"
    );
}

#[test]
fn acquire_skips_busy_slots_in_order() {
    let mut log = MetricLog::new();
    let zero = || -> Result<u32, String> { Ok(0u32) };
    let mut pool =
        EvictablePool::from_items(vec![10u32, 20u32, 30u32], 0, "order-test", NOW);

    let g0 = pool.acquire(&zero, NOW, &mut log).expect("first acquire");
    let g1 = pool.acquire(&zero, NOW, &mut log).expect("second acquire");
    let g2 = pool.acquire(&zero, NOW, &mut log).expect("third acquire");

    let i0 = g0.slot_index(&pool);
    let i1 = g1.slot_index(&pool);
    let i2 = g2.slot_index(&pool);

    assert_ne!(i0, i1, "first and second guards must be on different slots");
    assert_ne!(i1, i2, "second and third guards must be on different slots");
    assert_ne!(i0, i2, "first and third guards must be on different slots");

    // All three slot indices together must cover {0, 1, 2}.
    let mut indices = [i0, i1, i2];
    indices.sort_unstable();
    assert_eq!(
        indices,
        [0, 1, 2],
        "guards must cover all three slots exactly"
    );
    let full = pool.acquire(&zero, NOW, &mut log);
    assert!(matches!(full, Err(AcquireError::AllBusy)));
}

#[test]
fn busy_slots_are_not_swept() {
    let mut log = MetricLog::new();
    let mut pool = make_pool(2, 1);
    let guard = pool.acquire(&factory, NOW, &mut log).expect("acquire");
    pool.force_last_used_ago(50, NOW);
    assert_eq!(pool.evict_idle(1, NOW, &mut log), 1, "only the idle slot");
    assert!(pool.slot_is_busy(0));
    pool.release(guard, NOW);
    assert!(!pool.slot_is_busy(0) && !pool.slot_is_evicted(0));
}

#[test]
fn claims_are_made_and_ended_apart() {
    let mut log = MetricLog::new();
    let mut pool = make_pool(1, 1);
    pool.force_last_used_ago(10, NOW);
    assert_eq!(pool.evict_idle(1, NOW, &mut log), 1);
    let slot = match pool.claim(NOW, &mut log) {
        Claim::Reinit(slot) => slot,
        other => panic!("expected a new item to be asked for, got {other:?}"),
    };
    // While the item is made, nobody else gets the slot.
    assert!(matches!(pool.claim(NOW, &mut log), Claim::AllBusy));
    let guard = pool.complete(slot, Ok(5), NOW, &mut log).expect("complete");
    assert_eq!(*guard.get(), 5);
    assert_eq!(
        names(log),
        vec!["embed_pool_evictions_total", "embed_pool_cold_starts_total"]
    );
}

#[test]
fn released_item_keeps_its_changes() {
    let mut log = MetricLog::new();
    let mut pool = make_pool(1, 0);
    let mut guard = pool.acquire(&factory, NOW, &mut log).expect("acquire");
    *guard.get_mut() = 7;
    pool.release(guard, NOW);
    let guard = pool.acquire(&factory, NOW, &mut log).expect("acquire again");
    assert_eq!(*guard.get(), 7);
}

#[test]
fn pools_are_filled_at_once() {
    let pool = build_evictable_pool("m", 3, 60, &factory, NOW).expect("pool");
    assert_eq!((pool.len(), pool.idle_secs()), (3, 60));
    let calls = Cell::new(0u32);
    let failing = || -> Result<u32, String> {
        calls.set(calls.get() + 1);
        if calls.get() == 2 {
            Err("no memory".to_string())
        } else {
            Ok(1)
        }
    };
    let e = build_evictable_pool("m", 3, 60, &failing, NOW).expect_err("second slot");
    assert!(e.contains("no memory") && e.contains('1'), "{e}");
}

#[test]
fn acquire_errors_in_words() {
    assert_eq!(AcquireError::AllBusy.message(), "all pool slots are busy");
    assert_eq!(
        AcquireError::ReinitFailed("x".into()).message(),
        "pool slot reinit failed: x"
    );
}

#[test]
fn the_message_counts_the_items_that_were_made() {
    let made = std::cell::Cell::new(0);
    let third_fails = || -> Result<u32, String> {
        made.set(made.get() + 1);
        if made.get() == 3 {
            Err("no memory".to_string())
        } else {
            Ok(1)
        }
    };
    let r = build_evictable_pool("e5", 5, 1, &third_fails, NOW);
    assert_eq!(r.unwrap_err(), "embed session #2 failed: no memory");
}

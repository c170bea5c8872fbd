use quaver_stats::cache::{Cache, Lookup};
use std::time::{Duration, Instant};

const SECOND: u128 = 1_000_000_000;

fn ttl(nanos: u128) -> Duration {
    Duration::from_nanos(nanos as u64)
}

fn wait_at_least(d: Duration) {
    let start = Instant::now();
    while start.elapsed() < d {}
}

#[test]
fn test_len_empty_cache_is_zero() {
    let cache = Cache::new(ttl(60 * SECOND));
    assert_eq!(cache.len(), 0);
}

#[test]
fn test_len_counts_live_entries_only() {
    let mut cache = Cache::new(ttl(60 * SECOND));
    cache.set("live".to_string(), vec![1]);
    {
        let mut short = Cache::new(ttl(0));
        short.set("gone".to_string(), vec![2]);
        wait_at_least(Duration::from_millis(5));
        assert_eq!(short.len(), 0, "expired entry must not be counted");
    }
    assert_eq!(cache.len(), 1);
}

#[test]
fn test_set_then_get_hits() {
    let mut cache = Cache::new(ttl(60 * SECOND));
    cache.set("k".to_string(), vec![1, 2, 3]);
    assert_eq!(cache.get("k"), Some(vec![1, 2, 3]));
}

#[test]
fn test_get_missing_key_returns_none() {
    let mut cache = Cache::new(ttl(60 * SECOND));
    assert_eq!(cache.get("nope"), None);
}

#[test]
fn test_entry_expires_after_ttl() {
    let mut cache = Cache::new(ttl(0));
    cache.set("k".to_string(), vec![9]);
    wait_at_least(Duration::from_millis(5));
    assert_eq!(cache.get("k"), None);
}

#[test]
fn test_set_overwrites_existing_value() {
    let mut cache = Cache::new(ttl(60 * SECOND));
    cache.set("k".to_string(), vec![1]);
    cache.set("k".to_string(), vec![2]);
    assert_eq!(cache.get("k"), Some(vec![2]));
}

#[test]
fn test_expired_entries_are_evicted_from_backing_store() {
    let mut cache = Cache::new(ttl(0));
    for i in 0..1_000usize {
        cache.set(format!("user-{i}"), vec![i as u8]);
    }
    assert_eq!(cache.store_len(), 1_000);
    wait_at_least(Duration::from_millis(5));
    for i in 0..1_000usize {
        assert_eq!(
            cache.get(&format!("user-{i}")),
            None,
            "get must return None for expired key user-{i}"
        );
    }
    assert_eq!(cache.store_len(), 0, "backing store must be empty after all entries expire");
}

#[test]
fn test_repeated_cold_key_computes_once() {
    let mut cache = Cache::new(ttl(60 * SECOND));
    let mut calls = 0usize;
    let mut results = Vec::new();
    for _ in 0..10 {
        let counter = &mut calls;
        results.push(cache.get_or_compute("hot-user", move || {
            *counter += 1;
            vec![1, 2, 3]
        }));
    }
    assert_eq!(calls, 1, "a cold key must be computed once, then served from the cache");
    for result in &results {
        assert_eq!(result, &vec![1, 2, 3]);
    }
    assert_eq!(cache.get("hot-user"), Some(vec![1, 2, 3]));
}

#[test]
fn test_empty_computed_value_is_not_cached() {
    let mut cache = Cache::new(ttl(60 * SECOND));
    let first = cache.get_or_compute("broken", Vec::new);
    assert!(first.is_empty());
    assert_eq!(cache.store_len(), 0);
    let mut calls = 0usize;
    let second = cache.get_or_compute("broken", || {
        calls += 1;
        vec![7]
    });
    assert_eq!(calls, 1, "an empty result must not be served from the cache");
    assert_eq!(second, vec![7]);
    assert_eq!(cache.get("broken"), Some(vec![7]));
}

#[test]
fn test_store_computed_stores_only_non_empty() {
    let mut cache = Cache::new(ttl(60 * SECOND));
    assert_eq!(cache.store_computed("a", Vec::new()), Vec::<u8>::new());
    assert_eq!(cache.get("a"), None);
    assert_eq!(cache.store_computed("a", vec![4, 5]), vec![4, 5]);
    assert_eq!(cache.get("a"), Some(vec![4, 5]));
}

#[test]
fn test_read_after_write_at_explicit_times() {
    let mut cache = Cache::new(ttl(100));
    cache.set_at("k".to_string(), vec![1], 1_000);
    assert_eq!(cache.get_at("k", 1_000), Some(vec![1]));
    assert_eq!(cache.get_at("k", 1_099), Some(vec![1]));
    assert_eq!(cache.store_len(), 1);
    // The entry expires exactly `ttl` after it was written.
    assert_eq!(cache.get_at("k", 1_100), None);
    assert_eq!(cache.store_len(), 0);
    assert_eq!(cache.get_at("k", 1_000), None);
}

#[test]
fn test_lookup_at_distinguishes_hit_expired_missing() {
    let mut cache = Cache::new(ttl(10));
    cache.set_at("k".to_string(), vec![3], 5);
    assert!(matches!(cache.lookup_at("k", 14), Lookup::Hit(ref v) if v == &vec![3]));
    assert!(matches!(cache.lookup_at("k", 15), Lookup::Expired));
    assert!(matches!(cache.lookup_at("x", 0), Lookup::Missing));
    // Looking up evicts nothing.
    assert_eq!(cache.store_len(), 1);
}

#[test]
fn test_len_at_counts_live_entries() {
    let mut cache = Cache::new(ttl(10));
    cache.set_at("a".to_string(), vec![1], 0);
    cache.set_at("b".to_string(), vec![2], 5);
    cache.set_at("c".to_string(), vec![3], 20);
    assert_eq!(cache.len_at(4), 3);
    assert_eq!(cache.len_at(10), 2);
    assert_eq!(cache.len_at(15), 1);
    assert_eq!(cache.len_at(30), 0);
    assert_eq!(cache.store_len(), 3);
}

#[test]
fn test_writes_leave_other_keys() {
    let mut cache = Cache::new(ttl(10));
    cache.set_at("a".to_string(), vec![1], 0);
    cache.set_at("b".to_string(), vec![2], 0);
    cache.set_at("a".to_string(), vec![9], 3);
    assert_eq!(cache.get_at("b", 5), Some(vec![2]));
    assert_eq!(cache.get_at("a", 12), Some(vec![9]));
    assert_eq!(cache.get_at("b", 12), None);
    assert_eq!(cache.store_len(), 1);
}

#[test]
fn test_clock_advances() {
    let cache = Cache::new(ttl(SECOND));
    let a = cache.now();
    wait_at_least(Duration::from_millis(2));
    let b = cache.now();
    assert!(b >= a + 2_000_000);
}

#[test]
fn test_lookup_with_clock_does_not_evict() {
    let mut cache = Cache::new(ttl(60 * SECOND));
    cache.set("k".to_string(), vec![5]);
    assert!(matches!(cache.lookup("k"), Lookup::Hit(ref v) if v == &vec![5]));
    assert!(matches!(cache.lookup("other"), Lookup::Missing));
    let mut short = Cache::new(ttl(0));
    short.set("k".to_string(), vec![5]);
    wait_at_least(Duration::from_millis(2));
    assert!(matches!(short.lookup("k"), Lookup::Expired));
    assert_eq!(short.store_len(), 1);
    assert_eq!(short.get("k"), None);
    assert_eq!(short.store_len(), 0);
}

#[test]
fn test_computed_value_recomputed_after_expiry() {
    let mut cache = Cache::new(ttl(2_000_000));
    assert_eq!(cache.get_or_compute("k", || vec![1]), vec![1]);
    wait_at_least(Duration::from_millis(5));
    let mut calls = 0usize;
    let again = cache.get_or_compute("k", || {
        calls += 1;
        vec![2]
    });
    assert_eq!(calls, 1, "an expired value must be computed again");
    assert_eq!(again, vec![2]);
}

#[test]
fn test_clock_never_goes_below_last_reading() {
    let mut cache = Cache::new(ttl(SECOND));
    cache.set("k".to_string(), vec![1]);
    let a = cache.now();
    let b = cache.now();
    assert!(b >= a);
}

#[test]
fn test_reading_after_last_never_goes_back() {
    let mut cache = Cache::new(ttl(SECOND));
    assert_eq!(cache.reading_after_last(5), 5);
    wait_at_least(Duration::from_millis(1));
    cache.set("k".to_string(), vec![1]);
    let last = cache.now();
    assert!(last >= 1_000_000);
    assert!(cache.reading_after_last(0) >= 1_000_000);
    assert_eq!(cache.reading_after_last(u64::MAX as u128), u64::MAX as u128);
}

use quaver_stats::cache::Cache;
use std::time::Duration;
use quaver_stats::health::health_report;

const MINUTE: Duration = Duration::from_secs(60);

#[test]
fn test_health_status_is_ok() {
    let cache = Cache::new(MINUTE);
    let report = health_report(&cache);
    assert_eq!(report.status, "ok");
    assert_eq!(report.cache_entries, 0);
}

#[test]
fn test_health_cache_entries_reflects_live_count() {
    let mut cache = Cache::new(MINUTE);
    cache.set("user-a".to_string(), vec![1, 2, 3]);
    cache.set("user-b".to_string(), vec![4, 5, 6]);
    let report = health_report(&cache);
    assert_eq!(report.cache_entries, 2);
}

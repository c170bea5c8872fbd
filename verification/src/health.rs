//! The liveness report: service status and the number of live cache entries.

use crate::cache::{is_clock_reading, live_count, Cache, MAX_DURATION_NANOS};
use vstd::prelude::*;

verus! {

/// The body of a health check answer.
pub struct HealthResponse {
    /// Always `"ok"`: answering at all shows the service is up.
    pub status: String,
    /// The number of live entries in the card cache.
    pub cache_entries: usize,
}

/// The health report of a service whose card cache is `cache`.
pub fn health_report(cache: &Cache) -> (report: HealthResponse)
    ensures
        report.status@ == "ok"@,
        exists|now: u128|
            #![trigger live_count(cache@, now)]
            cache.last_reading() <= now <= MAX_DURATION_NANOS && is_clock_reading(
                now,
                cache.last_reading(),
            ) && report.cache_entries == live_count(cache@, now),
{
    HealthResponse { status: "ok".to_owned(), cache_entries: cache.len() }
}

} // verus!

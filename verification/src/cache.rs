//! An in-memory key/value cache whose entries expire a fixed time after they
//! are written.
//!
//! Keys are strings and values are byte vectors (rendered card images). Time
//! is counted in nanoseconds since the cache was created; an entry written at
//! time `t` is live while the clock reads less than `t + ttl`.

use std::time::{Duration, Instant};
use vstd::prelude::*;

verus! {

/// The monotonic clock reading the cache measures time against.
#[verifier::external_type_specification]
#[verifier::external_body]
pub struct ExInstant(Instant);

/// The largest number of nanoseconds a `std::time::Duration` holds:
/// `u64::MAX` seconds and 999 999 999 nanoseconds.
pub const MAX_DURATION_NANOS: u128 = 18446744073709551615999999999u128;

/// Trusted: `Instant::now()` reads the monotonic clock. Nothing is promised of
/// the reading, which depends on when the call is made.
#[verifier::external_body]
fn instant_now() -> Instant {
    Instant::now()
}

/// Trusted: `Instant::elapsed()` gives the time passed since `origin`. Which
/// duration comes back depends on when the call is made, so nothing is
/// promised of it.
#[verifier::external_body]
fn elapsed_since(origin: &Instant) -> Duration {
    origin.elapsed()
}

/// The number of nanoseconds in the duration `d`.
pub uninterp spec fn duration_as_nanos(d: Duration) -> u128;

/// Trusted: `Duration::as_nanos()` counts a duration in nanoseconds; no
/// duration exceeds `u64::MAX` seconds and 999 999 999 nanoseconds.
#[verifier::external_body]
fn duration_nanos(d: Duration) -> (n: u128)
    ensures
        n == duration_as_nanos(d),
        n <= MAX_DURATION_NANOS,
{
    d.as_nanos()
}

/// The time a cache takes from a clock report: the nanoseconds of the
/// `elapsed` duration since the cache was created, raised to `last`, the
/// latest reading the cache acted on, if the report is below it.
pub open spec fn clock_reading(elapsed: Duration, last: u128) -> u128 {
    if duration_as_nanos(elapsed) < last {
        last
    } else {
        duration_as_nanos(elapsed)
    }
}

/// Whether `t` is a time the cache takes from some clock report when its
/// latest reading was `last`.
pub open spec fn is_clock_reading(t: u128, last: u128) -> bool {
    exists|elapsed: Duration| #[trigger] clock_reading(elapsed, last) == t
}

/// A single cached value together with the time at which it expires.
#[derive(Clone)]
pub struct CacheEntry {
    /// The cached bytes, e.g. the binary contents of a PNG image.
    pub value: Vec<u8>,
    /// The time, in nanoseconds since the cache was created, at and after
    /// which this entry is considered expired.
    pub expires_at: u128,
}

/// What the cache holds: for each key, the cached bytes and their expiry time.
pub type CacheModel = Map<Seq<char>, (Seq<u8>, u128)>;

/// The model of one entry.
pub open spec fn entry_view(e: CacheEntry) -> (Seq<u8>, u128) {
    (e.value@, e.expires_at)
}

/// An entry is live while the clock reads strictly before its expiry.
pub open spec fn is_live(entry: (Seq<u8>, u128), now: u128) -> bool {
    entry.1 > now
}

/// What a read of `key` at time `now` answers: the value if a live entry is
/// stored under `key`, nothing otherwise.
pub open spec fn read(m: CacheModel, key: Seq<char>, now: u128) -> Option<Seq<u8>> {
    if m.contains_key(key) && is_live(m[key], now) {
        Some(m[key].0)
    } else {
        None
    }
}

/// The cache after a read of `key` at time `now`: an expired entry under
/// `key` is evicted, everything else stays.
pub open spec fn after_read(m: CacheModel, key: Seq<char>, now: u128) -> CacheModel {
    if m.contains_key(key) && !is_live(m[key], now) {
        m.remove(key)
    } else {
        m
    }
}

/// The cache after `value` is written under `key` at time `now`: the entry is
/// replaced and expires `ttl` nanoseconds later.
pub open spec fn written(m: CacheModel, key: Seq<char>, value: Seq<u8>, now: u128, ttl: u128) -> CacheModel {
    m.insert(key, (value, (now + ttl) as u128))
}

/// The cache after a computed `value` is offered for `key`: an empty value
/// signals a failed computation and is not stored.
pub open spec fn stored(m: CacheModel, key: Seq<char>, value: Seq<u8>, now: u128, ttl: u128) -> CacheModel {
    if value.len() > 0 {
        written(m, key, value, now, ttl)
    } else {
        m
    }
}

/// The keys whose entries are live at time `now`.
pub open spec fn live_keys(m: CacheModel, now: u128) -> Set<Seq<char>> {
    m.dom().filter(|k: Seq<char>| is_live(m[k], now))
}

/// The number of entries live at time `now`.
pub open spec fn live_count(m: CacheModel, now: u128) -> nat {
    live_keys(m, now).len()
}

/// How a cache that read `key` at time `t1` and came out as `after` relates
/// to the one it was (`before`), given the returned bytes `r` and the time
/// `stamped_at` the cache last acted on: either a live entry answered,
/// nothing changed and `stamped_at` is `t1`; or nothing live was stored, `r`
/// came from the computation (`from_compute`), the read's eviction happened,
/// and `r` was offered to the cache at the time `stamped_at`, no earlier than
/// `t1`.
pub open spec fn computed_or_cached(
    before: CacheModel,
    after: CacheModel,
    key: Seq<char>,
    t1: u128,
    ttl: u128,
    r: Seq<u8>,
    from_compute: bool,
    stamped_at: u128,
) -> bool {
    match read(before, key, t1) {
        Some(v) => r == v && after == before && stamped_at == t1,
        None => from_compute && t1 <= stamped_at && stamped_at <= MAX_DURATION_NANOS && after
            == stored(after_read(before, key, t1), key, r, stamped_at, ttl),
    }
}

/// The cache after reads of each of `keys`, in order, at time `now`.
pub open spec fn after_reads(m: CacheModel, keys: Seq<Seq<char>>, now: u128) -> CacheModel
    decreases keys.len(),
{
    if keys.len() == 0 {
        m
    } else {
        after_read(after_reads(m, keys.drop_last(), now), keys.last(), now)
    }
}

/// A value written under a key is read back until its TTL runs out, and
/// such a read changes nothing; from its expiry on it is no longer read, and
/// the read evicts it.
pub proof fn lemma_read_after_write(
    m: CacheModel,
    key: Seq<char>,
    value: Seq<u8>,
    written_at: u128,
    ttl: u128,
    read_at: u128,
)
    requires
        written_at + ttl <= u128::MAX,
    ensures
        read_at < written_at + ttl ==> read(written(m, key, value, written_at, ttl), key, read_at)
            == Some(value),
        read_at < written_at + ttl ==> after_read(written(m, key, value, written_at, ttl), key, read_at)
            == written(m, key, value, written_at, ttl),
        read_at >= written_at + ttl ==> read(written(m, key, value, written_at, ttl), key, read_at)
            is None,
        read_at >= written_at + ttl ==> after_read(written(m, key, value, written_at, ttl), key, read_at)
            == m.remove(key),
{
    let w = written(m, key, value, written_at, ttl);
    if read_at >= written_at + ttl {
        assert(w.remove(key) =~= m.remove(key));
    }
}

/// Writing under one key does not change what is read under another.
pub proof fn lemma_write_leaves_other_keys(
    m: CacheModel,
    key: Seq<char>,
    other: Seq<char>,
    value: Seq<u8>,
    written_at: u128,
    ttl: u128,
    read_at: u128,
)
    requires
        key != other,
    ensures
        read(written(m, key, value, written_at, ttl), other, read_at) == read(m, other, read_at),
{
}

/// A second write under the same key replaces the first entirely.
pub proof fn lemma_write_overwrites(
    m: CacheModel,
    key: Seq<char>,
    first: Seq<u8>,
    second: Seq<u8>,
    first_at: u128,
    second_at: u128,
    ttl: u128,
)
    ensures
        written(written(m, key, first, first_at, ttl), key, second, second_at, ttl) == written(
            m,
            key,
            second,
            second_at,
            ttl,
        ),
{
    assert(written(written(m, key, first, first_at, ttl), key, second, second_at, ttl) =~= written(
        m,
        key,
        second,
        second_at,
        ttl,
    ));
}

/// A read of a missing key answers nothing and changes nothing; a read that
/// answers leaves the cache as it was; a read that finds an expired entry
/// answers nothing and evicts it, so the store shrinks by one.
pub proof fn lemma_read_cases(m: CacheModel, key: Seq<char>, now: u128)
    requires
        m.dom().finite(),
    ensures
        !m.contains_key(key) ==> read(m, key, now) is None && after_read(m, key, now) == m,
        read(m, key, now) is Some ==> after_read(m, key, now) == m,
        m.contains_key(key) && !is_live(m[key], now) ==> read(m, key, now) is None
            && !after_read(m, key, now).contains_key(key) && after_read(m, key, now).len() + 1
            == m.len(),
{
}

/// Once every entry has expired, reading each stored key evicts them all and
/// leaves the backing store empty.
pub proof fn lemma_reading_expired_keys_empties(m: CacheModel, keys: Seq<Seq<char>>, now: u128)
    requires
        forall|k: Seq<char>| #[trigger] m.contains_key(k) ==> !is_live(m[k], now) && keys.contains(k),
    ensures
        after_reads(m, keys, now) == CacheModel::empty(),
    decreases keys.len(),
{
    lemma_after_reads_subset(m, keys, now);
    assert(after_reads(m, keys, now) =~= CacheModel::empty());
}

proof fn lemma_after_reads_subset(m: CacheModel, keys: Seq<Seq<char>>, now: u128)
    requires
        forall|k: Seq<char>| #[trigger] m.contains_key(k) ==> !is_live(m[k], now),
    ensures
        forall|k: Seq<char>| #[trigger] after_reads(m, keys, now).contains_key(k) ==> m.contains_key(k)
            && !keys.contains(k) && after_reads(m, keys, now)[k] == m[k],
    decreases keys.len(),
{
    if keys.len() > 0 {
        let prefix = keys.drop_last();
        lemma_after_reads_subset(m, prefix, now);
        assert forall|k: Seq<char>| #[trigger] after_reads(m, keys, now).contains_key(k) implies m.contains_key(k)
            && !keys.contains(k) && after_reads(m, keys, now)[k] == m[k] by {
            let a = after_reads(m, prefix, now);
            assert(a.contains_key(k));
            if keys.contains(k) {
                let i = choose|i: int| 0 <= i < keys.len() && keys[i] == k;
                if i < prefix.len() {
                    assert(prefix[i] == k);
                }
            }
        }
    }
}

/// A new cache holds no live entry.
pub proof fn lemma_empty_has_no_live_entries(now: u128)
    ensures
        live_count(CacheModel::empty(), now) == 0,
{
    assert(live_keys(CacheModel::empty(), now) =~= Set::empty());
}

/// Expired entries are not counted: where every entry has expired, the live
/// count is zero however many entries are still stored.
pub proof fn lemma_expired_entries_not_counted(m: CacheModel, now: u128)
    requires
        forall|k: Seq<char>| #[trigger] m.contains_key(k) ==> !is_live(m[k], now),
    ensures
        live_count(m, now) == 0,
{
    assert(live_keys(m, now) =~= Set::empty());
}

/// Writing a key that held no live entry adds one to the live count for as
/// long as the new entry lives.
pub proof fn lemma_write_counts_once(
    m: CacheModel,
    key: Seq<char>,
    value: Seq<u8>,
    written_at: u128,
    ttl: u128,
    now: u128,
)
    requires
        m.dom().finite(),
        !(m.contains_key(key) && is_live(m[key], now)),
        now < written_at + ttl,
        written_at + ttl <= u128::MAX,
    ensures
        live_count(written(m, key, value, written_at, ttl), now) == live_count(m, now) + 1,
{
    let w = written(m, key, value, written_at, ttl);
    assert(live_keys(w, now) =~= live_keys(m, now).insert(key));
    vstd::set_lib::lemma_len_subset(live_keys(m, now), m.dom());
}

/// A computed result that is empty leaves the cache unchanged, so the next
/// request computes again; a non-empty one is then read back until its TTL
/// runs out.
pub proof fn lemma_computed_result_caching(
    m: CacheModel,
    key: Seq<char>,
    value: Seq<u8>,
    stored_at: u128,
    ttl: u128,
    read_at: u128,
)
    requires
        stored_at + ttl <= u128::MAX,
    ensures
        value.len() == 0 ==> stored(m, key, value, stored_at, ttl) == m,
        value.len() > 0 && read_at < stored_at + ttl ==> read(
            stored(m, key, value, stored_at, ttl),
            key,
            read_at,
        ) == Some(value),
{
    lemma_read_after_write(m, key, value, stored_at, ttl, read_at);
}

/// A computation that comes back empty for a key holding no live entry is
/// not stored: the key is then absent, nothing is read under it at any
/// time, and the next request computes again.
pub proof fn lemma_empty_result_not_kept(
    before: CacheModel,
    after: CacheModel,
    key: Seq<char>,
    t1: u128,
    ttl: u128,
    r: Seq<u8>,
    from_compute: bool,
    stamped_at: u128,
    later: u128,
)
    requires
        computed_or_cached(before, after, key, t1, ttl, r, from_compute, stamped_at),
        read(before, key, t1) is None,
        r.len() == 0,
    ensures
        from_compute,
        after == after_read(before, key, t1),
        !after.contains_key(key),
        read(after, key, later) is None,
{
}

/// A non-empty computed value is served, unchanged and without computing,
/// to every later request before its TTL runs out; once it has run out the
/// next request computes again.
pub proof fn lemma_computed_value_served_until_expiry(
    before: CacheModel,
    middle: CacheModel,
    after: CacheModel,
    key: Seq<char>,
    ttl: u128,
    t1: u128,
    r1: Seq<u8>,
    from_compute1: bool,
    stamped1: u128,
    t2: u128,
    r2: Seq<u8>,
    from_compute2: bool,
    stamped2: u128,
)
    requires
        computed_or_cached(before, middle, key, t1, ttl, r1, from_compute1, stamped1),
        read(before, key, t1) is None,
        r1.len() > 0,
        stamped1 + ttl <= u128::MAX,
        computed_or_cached(middle, after, key, t2, ttl, r2, from_compute2, stamped2),
    ensures
        t2 < stamped1 + ttl ==> r2 == r1 && after == middle,
        t2 >= stamped1 + ttl ==> from_compute2,
{
    lemma_read_after_write(after_read(before, key, t1), key, r1, stamped1, ttl, t2);
}

/// A time taken from a clock report is never before the report nor before
/// the latest reading the cache acted on.
pub proof fn lemma_clock_reading_bounds(elapsed: Duration, last: u128)
    ensures
        clock_reading(elapsed, last) >= duration_as_nanos(elapsed),
        clock_reading(elapsed, last) >= last,
{
}

/// An entry written at `written_at` with time to live `ttl` is not returned
/// by a read whose clock reports at least `written_at + ttl` elapsed, and
/// that read evicts it; a read whose clock report and previous reading both
/// lie before the expiry returns it.
pub proof fn lemma_read_at_clock_report(
    m: CacheModel,
    key: Seq<char>,
    value: Seq<u8>,
    written_at: u128,
    ttl: u128,
    elapsed: Duration,
    last: u128,
)
    requires
        written_at + ttl <= u128::MAX,
    ensures
        duration_as_nanos(elapsed) >= written_at + ttl ==> read(
            written(m, key, value, written_at, ttl),
            key,
            clock_reading(elapsed, last),
        ) is None && !after_read(
            written(m, key, value, written_at, ttl),
            key,
            clock_reading(elapsed, last),
        ).contains_key(key),
        duration_as_nanos(elapsed) < written_at + ttl && last < written_at + ttl ==> read(
            written(m, key, value, written_at, ttl),
            key,
            clock_reading(elapsed, last),
        ) == Some(value),
{
    lemma_read_after_write(m, key, value, written_at, ttl, clock_reading(elapsed, last));
}

/// The number of live entries never grows as time goes on: a count taken
/// at `later` is at most one taken at `earlier`.
pub proof fn lemma_live_count_decreases(m: CacheModel, earlier: u128, later: u128)
    requires
        m.dom().finite(),
        earlier <= later,
    ensures
        live_keys(m, later).subset_of(live_keys(m, earlier)),
        live_count(m, later) <= live_count(m, earlier),
{
    vstd::set_lib::lemma_len_subset(live_keys(m, later), live_keys(m, earlier));
    vstd::set_lib::lemma_len_subset(live_keys(m, earlier), m.dom());
}

/// A count taken from a clock report counts no entry that had expired by
/// the reported time: it is at most the number of entries live then, and
/// zero when every entry had expired by then.
pub proof fn lemma_live_count_at_clock_report(m: CacheModel, elapsed: Duration, last: u128)
    requires
        m.dom().finite(),
    ensures
        live_count(m, clock_reading(elapsed, last)) <= live_count(m, duration_as_nanos(elapsed)),
        (forall|k: Seq<char>| #[trigger] m.contains_key(k) ==> m[k].1 <= duration_as_nanos(elapsed))
            ==> live_count(m, clock_reading(elapsed, last)) == 0,
{
    lemma_live_count_decreases(m, duration_as_nanos(elapsed), clock_reading(elapsed, last));
    if forall|k: Seq<char>| #[trigger] m.contains_key(k) ==> m[k].1 <= duration_as_nanos(elapsed) {
        lemma_expired_entries_not_counted(m, clock_reading(elapsed, last));
    }
}

/// Writing under one key leaves every other entry as it was, and the key
/// then holds the written value with expiry `now + ttl`.
pub proof fn lemma_write_keeps_other_entries(
    m: CacheModel,
    key: Seq<char>,
    value: Seq<u8>,
    now: u128,
    ttl: u128,
)
    requires
        now + ttl <= u128::MAX,
    ensures
        written(m, key, value, now, ttl).remove(key) == m.remove(key),
        written(m, key, value, now, ttl).contains_key(key),
        written(m, key, value, now, ttl)[key] == (value, (now + ttl) as u128),
        forall|other: Seq<char>|
            other != key ==> (#[trigger] written(m, key, value, now, ttl).contains_key(other)
                == m.contains_key(other)) && (m.contains_key(other) ==> written(
                m,
                key,
                value,
                now,
                ttl,
            )[other] == m[other]),
{
    assert(written(m, key, value, now, ttl).remove(key) =~= m.remove(key));
}

/// Offering a computed value for one key leaves every other entry as it
/// was; a non-empty value is then held under the key, an empty one changes
/// nothing.
pub proof fn lemma_store_keeps_other_entries(
    m: CacheModel,
    key: Seq<char>,
    value: Seq<u8>,
    now: u128,
    ttl: u128,
)
    requires
        now + ttl <= u128::MAX,
    ensures
        stored(m, key, value, now, ttl).remove(key) == m.remove(key),
        forall|other: Seq<char>|
            other != key ==> (#[trigger] stored(m, key, value, now, ttl).contains_key(other)
                == m.contains_key(other)) && (m.contains_key(other) ==> stored(
                m,
                key,
                value,
                now,
                ttl,
            )[other] == m[other]),
        value.len() > 0 ==> stored(m, key, value, now, ttl).contains_key(key) && stored(
            m,
            key,
            value,
            now,
            ttl,
        )[key] == (value, (now + ttl) as u128),
        value.len() == 0 ==> stored(m, key, value, now, ttl) == m,
{
    lemma_write_keeps_other_entries(m, key, value, now, ttl);
}

/// A get-or-compute for one key leaves every entry under other keys as it
/// was, whether it answered from the cache or computed.
pub proof fn lemma_get_or_compute_keeps_other_entries(
    before: CacheModel,
    after: CacheModel,
    key: Seq<char>,
    t1: u128,
    ttl: u128,
    r: Seq<u8>,
    from_compute: bool,
    stamped_at: u128,
)
    requires
        computed_or_cached(before, after, key, t1, ttl, r, from_compute, stamped_at),
        ttl <= MAX_DURATION_NANOS,
    ensures
        after.remove(key) == before.remove(key),
{
    if read(before, key, t1) is None {
        let evicted = after_read(before, key, t1);
        assert(evicted.remove(key) =~= before.remove(key));
        lemma_store_keeps_other_entries(evicted, key, r, stamped_at, ttl);
    }
}

/// The result of looking a key up without evicting anything.
pub enum Lookup {
    /// A live entry holds these bytes.
    Hit(Vec<u8>),
    /// An entry is stored under the key but it has expired.
    Expired,
    /// Nothing is stored under the key.
    Missing,
}

/// An in-memory key/value cache whose entries expire after a fixed TTL.
pub struct Cache {
    entries: Vec<(String, CacheEntry)>,
    origin: Instant,
    ttl: u128,
    last: u128,
}

spec fn key_of(p: (String, CacheEntry)) -> Seq<char> {
    p.0@
}

spec fn has_key(s: Seq<(String, CacheEntry)>, k: Seq<char>) -> bool {
    exists|i: int| 0 <= i < s.len() && #[trigger] key_of(s[i]) == k
}

spec fn slot(s: Seq<(String, CacheEntry)>, k: Seq<char>) -> int {
    choose|i: int| 0 <= i < s.len() && #[trigger] key_of(s[i]) == k
}

spec fn model(s: Seq<(String, CacheEntry)>) -> CacheModel {
    Map::new(|k: Seq<char>| has_key(s, k), |k: Seq<char>| entry_view(s[slot(s, k)].1))
}

spec fn distinct(s: Seq<(String, CacheEntry)>) -> bool {
    forall|i: int, j: int|
        0 <= i < s.len() && 0 <= j < s.len() && i != j ==> #[trigger] key_of(s[i]) != #[trigger] key_of(s[j])
}

proof fn lemma_model_at(s: Seq<(String, CacheEntry)>, j: int)
    requires
        distinct(s),
        0 <= j < s.len(),
    ensures
        model(s).contains_key(key_of(s[j])),
        slot(s, key_of(s[j])) == j,
        model(s)[key_of(s[j])] == entry_view(s[j].1),
{
    let k = key_of(s[j]);
    assert(has_key(s, k));
    let i = slot(s, k);
    assert(key_of(s[i]) == k);
}

proof fn lemma_model_absent(s: Seq<(String, CacheEntry)>, k: Seq<char>)
    requires
        forall|j: int| 0 <= j < s.len() ==> key_of(s[j]) != k,
    ensures
        !model(s).contains_key(k),
{
}

proof fn lemma_model_finite(s: Seq<(String, CacheEntry)>)
    ensures
        model(s).dom().finite(),
    decreases s.len(),
{
    if s.len() == 0 {
        assert(model(s).dom() =~= Set::empty());
    } else {
        let t = s.drop_last();
        lemma_model_finite(t);
        assert forall|k: Seq<char>| model(s).dom().contains(k) implies model(t).dom().insert(
            key_of(s.last()),
        ).contains(k) by {
            let i = choose|i: int| 0 <= i < s.len() && #[trigger] key_of(s[i]) == k;
            if i < t.len() {
                assert(key_of(t[i]) == k);
            }
        }
        vstd::set_lib::lemma_len_subset(model(s).dom(), model(t).dom().insert(key_of(s.last())));
    }
}

proof fn lemma_model_push(s: Seq<(String, CacheEntry)>, p: (String, CacheEntry))
    requires
        distinct(s),
        !model(s).contains_key(key_of(p)),
    ensures
        distinct(s.push(p)),
        model(s.push(p)) =~= model(s).insert(key_of(p), entry_view(p.1)),
{
    let s2 = s.push(p);
    assert forall|i: int, j: int|
        0 <= i < s2.len() && 0 <= j < s2.len() && i != j implies #[trigger] key_of(s2[i])
        != #[trigger] key_of(s2[j]) by {
        if i < s.len() && j < s.len() {
            assert(s2[i] == s[i] && s2[j] == s[j]);
        } else if i < s.len() {
            assert(s2[i] == s[i]);
            assert(has_key(s, key_of(s[i])));
        } else if j < s.len() {
            assert(s2[j] == s[j]);
            assert(has_key(s, key_of(s[j])));
        }
    }
    assert forall|k: Seq<char>| #[trigger] model(s2).contains_key(k) == model(s).insert(
        key_of(p),
        entry_view(p.1),
    ).contains_key(k) by {
        if has_key(s, k) {
            let i = choose|i: int| 0 <= i < s.len() && #[trigger] key_of(s[i]) == k;
            assert(key_of(s2[i]) == k);
        }
        if has_key(s2, k) {
            let i = choose|i: int| 0 <= i < s2.len() && #[trigger] key_of(s2[i]) == k;
            if i < s.len() {
                assert(key_of(s[i]) == k);
            }
        }
        if k == key_of(p) {
            assert(key_of(s2[s.len() as int]) == k);
        }
    }
    assert forall|k: Seq<char>| #[trigger] model(s2).contains_key(k) implies model(s2)[k] == model(
        s,
    ).insert(key_of(p), entry_view(p.1))[k] by {
        let i = choose|i: int| 0 <= i < s2.len() && #[trigger] key_of(s2[i]) == k;
        lemma_model_at(s2, i);
        if i < s.len() {
            assert(s2[i] == s[i]);
            lemma_model_at(s, i);
        }
    }
}

proof fn lemma_model_update(s: Seq<(String, CacheEntry)>, i: int, p: (String, CacheEntry))
    requires
        distinct(s),
        0 <= i < s.len(),
        key_of(p) == key_of(s[i]),
    ensures
        distinct(s.update(i, p)),
        model(s.update(i, p)) =~= model(s).insert(key_of(p), entry_view(p.1)),
{
    let s2 = s.update(i, p);
    assert forall|a: int, b: int|
        0 <= a < s2.len() && 0 <= b < s2.len() && a != b implies #[trigger] key_of(s2[a])
        != #[trigger] key_of(s2[b]) by {
        assert(key_of(s2[a]) == key_of(s[a]));
        assert(key_of(s2[b]) == key_of(s[b]));
    }
    assert forall|k: Seq<char>| #[trigger] model(s2).contains_key(k) == model(s).insert(
        key_of(p),
        entry_view(p.1),
    ).contains_key(k) by {
        if has_key(s, k) {
            let j = choose|j: int| 0 <= j < s.len() && #[trigger] key_of(s[j]) == k;
            assert(key_of(s2[j]) == k);
        }
        if has_key(s2, k) {
            let j = choose|j: int| 0 <= j < s2.len() && #[trigger] key_of(s2[j]) == k;
            assert(key_of(s[j]) == k);
        }
        if k == key_of(p) {
            assert(key_of(s2[i]) == k);
        }
    }
    assert forall|k: Seq<char>| #[trigger] model(s2).contains_key(k) implies model(s2)[k] == model(
        s,
    ).insert(key_of(p), entry_view(p.1))[k] by {
        let j = choose|j: int| 0 <= j < s2.len() && #[trigger] key_of(s2[j]) == k;
        lemma_model_at(s2, j);
        if j != i {
            assert(s2[j] == s[j]);
            lemma_model_at(s, j);
        }
    }
}

proof fn lemma_model_remove(s: Seq<(String, CacheEntry)>, i: int)
    requires
        distinct(s),
        0 <= i < s.len(),
    ensures
        distinct(s.remove(i)),
        model(s.remove(i)) =~= model(s).remove(key_of(s[i])),
{
    let s2 = s.remove(i);
    assert forall|a: int, b: int|
        0 <= a < s2.len() && 0 <= b < s2.len() && a != b implies #[trigger] key_of(s2[a])
        != #[trigger] key_of(s2[b]) by {
        let a0 = if a < i { a } else { a + 1 };
        let b0 = if b < i { b } else { b + 1 };
        assert(s2[a] == s[a0]);
        assert(s2[b] == s[b0]);
    }
    assert forall|k: Seq<char>| #[trigger] model(s2).contains_key(k) == model(s).remove(
        key_of(s[i]),
    ).contains_key(k) by {
        if has_key(s2, k) {
            let j = choose|j: int| 0 <= j < s2.len() && #[trigger] key_of(s2[j]) == k;
            let j0 = if j < i { j } else { j + 1 };
            assert(s2[j] == s[j0]);
            assert(key_of(s[j0]) == k);
        }
        if has_key(s, k) && k != key_of(s[i]) {
            let j = choose|j: int| 0 <= j < s.len() && #[trigger] key_of(s[j]) == k;
            if j < i {
                assert(s2[j] == s[j]);
                assert(key_of(s2[j]) == k);
            } else {
                assert(s2[j - 1] == s[j]);
                assert(key_of(s2[j - 1]) == k);
            }
        }
    }
    assert forall|k: Seq<char>| #[trigger] model(s2).contains_key(k) implies model(s2)[k] == model(
        s,
    ).remove(key_of(s[i]))[k] by {
        let j = choose|j: int| 0 <= j < s2.len() && #[trigger] key_of(s2[j]) == k;
        lemma_model_at(s2, j);
        let j0 = if j < i { j } else { j + 1 };
        assert(s2[j] == s[j0]);
        lemma_model_at(s, j0);
    }
}

spec fn live_prefix(s: Seq<(String, CacheEntry)>, n: int, now: u128) -> Set<Seq<char>> {
    Set::new(
        |k: Seq<char>|
            exists|j: int| 0 <= j < n && #[trigger] key_of(s[j]) == k && s[j].1.expires_at > now,
    )
}

proof fn lemma_live_prefix_step(s: Seq<(String, CacheEntry)>, i: int, now: u128)
    requires
        distinct(s),
        0 <= i < s.len(),
        live_prefix(s, i, now).finite(),
    ensures
        s[i].1.expires_at > now ==> live_prefix(s, i + 1, now) == live_prefix(s, i, now).insert(
            key_of(s[i]),
        ),
        s[i].1.expires_at > now ==> !live_prefix(s, i, now).contains(key_of(s[i])),
        s[i].1.expires_at <= now ==> live_prefix(s, i + 1, now) == live_prefix(s, i, now),
        live_prefix(s, i + 1, now).finite(),
{
    let a = live_prefix(s, i, now);
    let b = live_prefix(s, i + 1, now);
    if s[i].1.expires_at > now {
        assert forall|k: Seq<char>| #[trigger] b.contains(k) == a.insert(key_of(s[i])).contains(k) by {
            if k == key_of(s[i]) {
                assert(key_of(s[i]) == k && 0 <= i < i + 1);
            }
            if a.contains(k) {
                let j = choose|j: int| 0 <= j < i && #[trigger] key_of(s[j]) == k && s[j].1.expires_at > now;
                assert(0 <= j < i + 1);
            }
        }
        assert(b =~= a.insert(key_of(s[i])));
        if a.contains(key_of(s[i])) {
            let j = choose|j: int|
                0 <= j < i && #[trigger] key_of(s[j]) == key_of(s[i]) && s[j].1.expires_at > now;
            assert(key_of(s[j]) != key_of(s[i]));
        }
    } else {
        assert forall|k: Seq<char>| #[trigger] b.contains(k) == a.contains(k) by {
            if b.contains(k) {
                let j = choose|j: int|
                    0 <= j < i + 1 && #[trigger] key_of(s[j]) == k && s[j].1.expires_at > now;
                assert(j != i);
            }
        }
        assert(b =~= a);
    }
}

proof fn lemma_live_prefix_full(s: Seq<(String, CacheEntry)>, now: u128)
    requires
        distinct(s),
    ensures
        live_prefix(s, s.len() as int, now) == live_keys(model(s), now),
{
    let a = live_prefix(s, s.len() as int, now);
    let m = model(s);
    assert forall|k: Seq<char>| #[trigger] a.contains(k) == live_keys(m, now).contains(k) by {
        if a.contains(k) {
            let j = choose|j: int|
                0 <= j < s.len() && #[trigger] key_of(s[j]) == k && s[j].1.expires_at > now;
            lemma_model_at(s, j);
        }
        if live_keys(m, now).contains(k) {
            let j = choose|j: int| 0 <= j < s.len() && #[trigger] key_of(s[j]) == k;
            lemma_model_at(s, j);
        }
    }
    assert(a =~= live_keys(m, now));
}

proof fn lemma_store_len(s: Seq<(String, CacheEntry)>)
    requires
        distinct(s),
    ensures
        model(s).len() == s.len(),
    decreases s.len(),
{
    if s.len() > 0 {
        let t = s.drop_last();
        assert(distinct(t)) by {
            assert forall|i: int, j: int|
                0 <= i < t.len() && 0 <= j < t.len() && i != j implies #[trigger] key_of(t[i])
                != #[trigger] key_of(t[j]) by {
                assert(t[i] == s[i] && t[j] == s[j]);
            }
        }
        lemma_store_len(t);
        lemma_model_finite(t);
        assert forall|j: int| 0 <= j < t.len() implies key_of(t[j]) != key_of(s.last()) by {
            assert(t[j] == s[j]);
        }
        lemma_model_absent(t, key_of(s.last()));
        lemma_model_push(t, s.last());
        assert(t.push(s.last()) =~= s);
        assert(model(s).dom() =~= model(t).dom().insert(key_of(s.last())));
    } else {
        assert(model(s).dom() =~= Set::empty());
    }
}

impl View for Cache {
    type V = CacheModel;

    closed spec fn view(&self) -> CacheModel {
        model(self.entries@)
    }
}

impl Cache {
    #[verifier::type_invariant]
    spec fn well_formed(&self) -> bool {
        &&& distinct(self.entries@)
        &&& self.ttl <= MAX_DURATION_NANOS
        &&& self.last <= MAX_DURATION_NANOS
    }

    /// The time to live of every entry, in nanoseconds.
    pub closed spec fn ttl_nanos(&self) -> u128 {
        self.ttl
    }

    /// The latest clock reading the cache has acted on: no later reading is
    /// taken below it.
    pub closed spec fn last_reading(&self) -> u128 {
        self.last
    }

    /// Creates an empty cache whose entries expire `ttl` after they are set.
    pub fn new(ttl: Duration) -> (cache: Self)
        ensures
            cache@ == CacheModel::empty(),
            cache.ttl_nanos() == duration_as_nanos(ttl),
            cache.last_reading() == 0,
    {
        let ttl_nanos: u128 = duration_nanos(ttl);
        let cache = Cache { entries: Vec::new(), origin: instant_now(), ttl: ttl_nanos, last: 0 };
        assert(cache@ =~= CacheModel::empty());
        cache
    }

    fn find(&self, key: &String) -> (r: Option<usize>)
        ensures
            match r {
                Some(i) => i < self.entries@.len() && key_of(self.entries@[i as int]) == key@,
                None => forall|j: int|
                    0 <= j < self.entries@.len() ==> key_of(self.entries@[j]) != key@,
            },
    {
        let n: usize = self.entries.len();
        for i in 0..n
            invariant
                n == self.entries@.len(),
                forall|j: int| 0 <= j < i ==> key_of(self.entries@[j]) != key@,
        {
            if self.entries[i].0 == *key {
                return Some(i);
            }
        }
        None
    }

    /// Looks `key` up at time `now` without evicting anything.
    pub fn lookup_at(&self, key: &str, now: u128) -> (r: Lookup)
        ensures
            match r {
                Lookup::Hit(v) => read(self@, key@, now) == Some(v@),
                Lookup::Expired => self@.contains_key(key@) && read(self@, key@, now) is None,
                Lookup::Missing => !self@.contains_key(key@),
            },
    {
        proof {
            use_type_invariant(self);
        }
        let owned = key.to_owned();
        match self.find(&owned) {
            None => {
                proof {
                    lemma_model_absent(self.entries@, key@);
                }
                Lookup::Missing
            },
            Some(i) => {
                proof {
                    lemma_model_at(self.entries@, i as int);
                }
                let entry = &self.entries[i].1;
                if entry.expires_at > now {
                    let v = entry.value.clone();
                    assert(v@ =~= entry.value@);
                    Lookup::Hit(v)
                } else {
                    Lookup::Expired
                }
            },
        }
    }

    /// Returns a copy of the value stored under `key` if its entry is live at
    /// time `now`. An expired entry under `key` is evicted.
    pub fn get_at(&mut self, key: &str, now: u128) -> (r: Option<Vec<u8>>)
        ensures
            final(self)@ == after_read(old(self)@, key@, now),
            final(self).ttl_nanos() == old(self).ttl_nanos(),
            final(self).last_reading() == old(self).last_reading(),
            match r {
                Some(v) => read(old(self)@, key@, now) == Some(v@),
                None => read(old(self)@, key@, now) is None,
            },
    {
        proof {
            use_type_invariant(&*self);
        }
        let owned = key.to_owned();
        match self.find(&owned) {
            None => {
                proof {
                    lemma_model_absent(self.entries@, key@);
                }
                None
            },
            Some(i) => {
                proof {
                    lemma_model_at(self.entries@, i as int);
                }
                if self.entries[i].1.expires_at > now {
                    let v = self.entries[i].1.value.clone();
                    assert(v@ =~= self.entries@[i as int].1.value@);
                    Some(v)
                } else {
                    proof {
                        lemma_model_remove(self.entries@, i as int);
                    }
                    let mut entries = Vec::new();
                    std::mem::swap(&mut entries, &mut self.entries);
                    entries.remove(i);
                    self.entries = entries;
                    None
                }
            },
        }
    }

    /// Stores `value` under `key` at time `now`, overwriting any existing
    /// entry, with an expiry of `now` plus the cache's TTL.
    pub fn set_at(&mut self, key: String, value: Vec<u8>, now: u128)
        requires
            now <= MAX_DURATION_NANOS,
        ensures
            final(self)@ == written(old(self)@, key@, value@, now, old(self).ttl_nanos()),
            old(self).ttl_nanos() <= MAX_DURATION_NANOS,
            final(self).ttl_nanos() == old(self).ttl_nanos(),
            final(self).last_reading() == old(self).last_reading(),
    {
        proof {
            use_type_invariant(&*self);
        }
        let entry = CacheEntry { value, expires_at: now + self.ttl };
        match self.find(&key) {
            None => {
                proof {
                    lemma_model_absent(self.entries@, key@);
                    lemma_model_push(self.entries@, (key, entry));
                }
                let mut entries = Vec::new();
                std::mem::swap(&mut entries, &mut self.entries);
                entries.push((key, entry));
                self.entries = entries;
            },
            Some(i) => {
                proof {
                    lemma_model_update(self.entries@, i as int, (key, entry));
                }
                let mut entries = Vec::new();
                std::mem::swap(&mut entries, &mut self.entries);
                entries.set(i, (key, entry));
                self.entries = entries;
            },
        }
    }
    /// Returns the number of entries that are live at time `now`.
    pub fn len_at(&self, now: u128) -> (n: usize)
        ensures
            n == live_count(self@, now),
    {
        proof {
            use_type_invariant(self);
        }
        let len: usize = self.entries.len();
        let mut count: usize = 0;
        proof {
            assert(live_prefix(self.entries@, 0, now) =~= Set::empty());
        }
        for i in 0..len
            invariant
                len == self.entries@.len(),
                distinct(self.entries@),
                count <= i,
                live_prefix(self.entries@, i as int, now).finite(),
                count == live_prefix(self.entries@, i as int, now).len(),
        {
            proof {
                lemma_live_prefix_step(self.entries@, i as int, now);
            }
            if self.entries[i].1.expires_at > now {
                count = count + 1;
            }
        }
        proof {
            lemma_live_prefix_full(self.entries@, now);
        }
        count
    }

    /// Returns the number of entries held, live or expired: what the backing
    /// store occupies until expired entries are evicted.
    pub fn store_len(&self) -> (n: usize)
        ensures
            n == self@.len(),
    {
        proof {
            use_type_invariant(self);
            lemma_model_finite(self.entries@);
            lemma_store_len(self.entries@);
        }
        self.entries.len()
    }

    /// Offers a computed `value` for `key` at time `now` and returns it. A
    /// non-empty value is stored with the usual TTL; an empty value marks a
    /// failed computation and is not stored.
    pub fn store_computed_at(&mut self, key: &str, value: Vec<u8>, now: u128) -> (r: Vec<u8>)
        requires
            now <= MAX_DURATION_NANOS,
        ensures
            r == value,
            final(self)@ == stored(old(self)@, key@, value@, now, old(self).ttl_nanos()),
            old(self).ttl_nanos() <= MAX_DURATION_NANOS,
            final(self).ttl_nanos() == old(self).ttl_nanos(),
            final(self).last_reading() == old(self).last_reading(),
    {
        proof {
            use_type_invariant(&*self);
        }
        if !value.is_empty() {
            let copy = value.clone();
            assert(copy@ =~= value@);
            self.set_at(key.to_owned(), copy, now);
        }
        value
    }
    /// Reads the cache's clock: nanoseconds elapsed since the cache was
    /// created, never less than the latest reading the cache acted on. The
    /// reading depends on when the call is made.
    pub fn now(&self) -> (t: u128)
        ensures
            self.last_reading() <= t <= MAX_DURATION_NANOS,
            is_clock_reading(t, self.last_reading()),
    {
        let elapsed = elapsed_since(&self.origin);
        let t: u128 = self.reading_after_last(duration_nanos(elapsed));
        assert(clock_reading(elapsed, self.last_reading()) == t);
        t
    }

    /// A clock `reading` as the cache takes it: never below the latest
    /// reading it acted on.
    pub fn reading_after_last(&self, reading: u128) -> (t: u128)
        requires
            reading <= MAX_DURATION_NANOS,
        ensures
            t == if reading < self.last_reading() {
                self.last_reading()
            } else {
                reading
            },
            self.last_reading() <= t <= MAX_DURATION_NANOS,
    {
        proof {
            use_type_invariant(self);
        }
        if reading < self.last {
            self.last
        } else {
            reading
        }
    }

    /// Looks `key` up at the current time without evicting anything.
    pub fn lookup(&self, key: &str) -> (r: Lookup)
        ensures
            exists|now: u128|
                #![trigger read(self@, key@, now)]
                self.last_reading() <= now <= MAX_DURATION_NANOS && is_clock_reading(
                    now,
                    self.last_reading(),
                ) && match r {
                    Lookup::Hit(v) => read(self@, key@, now) == Some(v@),
                    Lookup::Expired => self@.contains_key(key@) && read(self@, key@, now) is None,
                    Lookup::Missing => !self@.contains_key(key@),
                },
    {
        let now: u128 = self.now();
        self.lookup_at(key, now)
    }

    /// Returns a copy of the value stored under `key`, or `None` if the key
    /// is absent or its entry has expired; an expired entry is evicted.
    pub fn get(&mut self, key: &str) -> (r: Option<Vec<u8>>)
        ensures
            final(self).ttl_nanos() == old(self).ttl_nanos(),
            exists|now: u128|
                #![trigger read(old(self)@, key@, now)]
                old(self).last_reading() <= now <= MAX_DURATION_NANOS && is_clock_reading(
                    now,
                    old(self).last_reading(),
                ) && final(self).last_reading() == now && final(self)@ == after_read(
                    old(self)@,
                    key@,
                    now,
                ) && match r {
                    Some(v) => read(old(self)@, key@, now) == Some(v@),
                    None => read(old(self)@, key@, now) is None,
                },
    {
        let now: u128 = self.now();
        let r = self.get_at(key, now);
        proof {
            use_type_invariant(&*self);
        }
        self.last = now;
        r
    }

    /// Inserts `value` under `key`, overwriting any existing entry, with an
    /// expiry of the current time plus the cache's TTL.
    pub fn set(&mut self, key: String, value: Vec<u8>)
        ensures
            old(self).ttl_nanos() <= MAX_DURATION_NANOS,
            final(self).ttl_nanos() == old(self).ttl_nanos(),
            exists|now: u128|
                #![trigger written(old(self)@, key@, value@, now, old(self).ttl_nanos())]
                old(self).last_reading() <= now <= MAX_DURATION_NANOS && is_clock_reading(
                    now,
                    old(self).last_reading(),
                ) && final(self).last_reading() == now && final(self)@ == written(
                    old(self)@,
                    key@,
                    value@,
                    now,
                    old(self).ttl_nanos(),
                ),
    {
        let now: u128 = self.now();
        self.set_at(key, value, now);
        proof {
            use_type_invariant(&*self);
        }
        self.last = now;
    }

    /// Returns the number of entries that are currently live (not yet expired).
    pub fn len(&self) -> (n: usize)
        ensures
            exists|now: u128|
                #![trigger live_count(self@, now)]
                self.last_reading() <= now <= MAX_DURATION_NANOS && is_clock_reading(
                    now,
                    self.last_reading(),
                ) && n == live_count(self@, now),
    {
        let now: u128 = self.now();
        self.len_at(now)
    }

    /// Offers a computed `value` for `key` at the current time and returns
    /// it; only a non-empty value is stored.
    pub fn store_computed(&mut self, key: &str, value: Vec<u8>) -> (r: Vec<u8>)
        ensures
            r == value,
            old(self).ttl_nanos() <= MAX_DURATION_NANOS,
            final(self).ttl_nanos() == old(self).ttl_nanos(),
            exists|now: u128|
                #![trigger stored(old(self)@, key@, value@, now, old(self).ttl_nanos())]
                old(self).last_reading() <= now <= MAX_DURATION_NANOS && is_clock_reading(
                    now,
                    old(self).last_reading(),
                ) && final(self).last_reading() == now && final(self)@ == stored(
                    old(self)@,
                    key@,
                    value@,
                    now,
                    old(self).ttl_nanos(),
                ),
    {
        let now: u128 = self.now();
        let r = self.store_computed_at(key, value, now);
        proof {
            use_type_invariant(&*self);
        }
        self.last = now;
        r
    }

    /// Returns the cached value for `key`, computing it with `compute` on a
    /// miss. A computed non-empty value is stored with the usual TTL, so later
    /// callers take the cache path; an empty value is returned but not stored,
    /// so a later request computes it again.
    pub fn get_or_compute<F: FnOnce() -> Vec<u8>>(&mut self, key: &str, compute: F) -> (r: Vec<u8>)
        requires
            compute.requires(()),
        ensures
            old(self).ttl_nanos() <= MAX_DURATION_NANOS,
            final(self).ttl_nanos() == old(self).ttl_nanos(),
            exists|t1: u128|
                #![trigger read(old(self)@, key@, t1)]
                old(self).last_reading() <= t1 && is_clock_reading(t1, old(self).last_reading())
                    && (read(old(self)@, key@, t1) is None ==> is_clock_reading(
                    final(self).last_reading(),
                    t1,
                )) && computed_or_cached(
                    old(self)@,
                    final(self)@,
                    key@,
                    t1,
                    old(self).ttl_nanos(),
                    r@,
                    compute.ensures((), r),
                    final(self).last_reading(),
                ),
    {
        proof {
            use_type_invariant(&*self);
        }
        let t1: u128 = self.now();
        let old_model = Ghost(self@);
        match self.get_at(key, t1) {
            Some(v) => {
                proof {
                    use_type_invariant(&*self);
                }
                self.last = t1;
                assert(after_read(old_model@, key@, t1) == old_model@);
                v
            },
            None => {
                proof {
                    use_type_invariant(&*self);
                }
                self.last = t1;
                let value = compute();
                let t2: u128 = self.now();
                let r = self.store_computed_at(key, value, t2);
                proof {
                    use_type_invariant(&*self);
                }
                self.last = t2;
                assert(computed_or_cached(
                    old_model@,
                    self@,
                    key@,
                    t1,
                    self.ttl_nanos(),
                    r@,
                    compute.ensures((), r),
                    self.last_reading(),
                ));
                r
            },
        }
    }
}

} // verus!

//! Bookkeeping types of the HTTP/2 server-push cache: its configuration,
//! the per-resource entry, and the hit/miss statistics.

use vstd::prelude::*;

verus! {

/// Configuration for the push cache.
#[derive(Debug, Clone)]
pub struct PushCacheConfig {
    /// Whether the cache is consulted at all.
    pub enabled: bool,
    /// Most entries held at once.
    pub max_entries: usize,
    /// Entry time-to-live, in seconds.
    pub ttl: u64,
    /// Whether expired entries are swept automatically.
    pub auto_cleanup: bool,
}

impl Default for PushCacheConfig {
    /// The stock configuration: 1000 entries, 300 s TTL, sweeping on.
    fn default() -> (r: Self)
        ensures
            r.enabled && r.max_entries == 1000 && r.ttl == 300 && r.auto_cleanup,
    {
        PushCacheConfig { enabled: true, max_entries: 1000, ttl: 300, auto_cleanup: true }
    }
}

/// One pushed resource.
#[derive(Debug)]
pub struct PushCacheEntry {
    /// The resource's URL.
    pub url: String,
    /// When the push was recorded, in seconds.
    pub created_at: u64,
    /// How often the entry answered a lookup.
    pub hit_count: usize,
    /// The resource's size in bytes, when known.
    pub size: Option<usize>,
}

impl PushCacheEntry {
    /// Records a push at time `now`.
    pub fn new(url: String, size: Option<usize>, now: u64) -> (r: Self)
        ensures
            r.url == url && r.created_at == now && r.hit_count == 0 && r.size == size,
    {
        PushCacheEntry { url, created_at: now, hit_count: 0, size }
    }

    /// The entry has outlived `ttl` at time `now`.
    pub open spec fn spec_expired(&self, ttl: u64, now: u64) -> bool {
        now >= self.created_at && now - self.created_at > ttl
    }

    /// Checks the TTL against the clock.
    pub fn is_expired(&self, ttl: u64, now: u64) -> (r: bool)
        ensures
            r == self.spec_expired(ttl, now),
    {
        now >= self.created_at && now - self.created_at > ttl
    }
}

/// Hit/miss statistics of the push cache.
#[derive(Debug, Clone, Copy, Default)]
pub struct PushCacheStats {
    /// Lookups that found a fresh entry.
    pub hits: usize,
    /// Lookups that found none.
    pub misses: usize,
    /// Resources recorded as pushed.
    pub pushes: usize,
    /// Entries evicted, by age or by capacity.
    pub evictions: usize,
}

impl PushCacheStats {
    /// The number of lookups made.
    pub fn total_requests(&self) -> (r: usize)
        requires
            self.hits + self.misses <= usize::MAX,
        ensures
            r == self.hits + self.misses,
    {
        self.hits + self.misses
    }
}

} // verus!

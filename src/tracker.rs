//! A table of what was previously sent, keyed by caller-chosen strings, with
//! hit/miss accounting. Times are milliseconds on a clock the caller reads.

use vstd::prelude::*;
use crate::json::same_text;

verus! {

/// Addition that stops at the largest `u64`.
pub open spec fn sat64(a: nat, b: nat) -> u64 {
    if a + b > u64::MAX {
        u64::MAX
    } else {
        (a + b) as u64
    }
}

/// Nine tenths of a count, rounded down.
pub open spec fn nine_tenths_of(n: nat) -> nat {
    (n * 9) / 10
}

fn nine_tenths_u64(n: u64) -> (r: u64)
    ensures
        r == nine_tenths_of(n as nat),
{
    let q = n / 10;
    let m = n % 10;
    proof {
        assert((n as int * 9) / 10 == q * 9 + (m * 9) / 10) by (nonlinear_arith)
            requires
                n as int == q * 10 + m,
                0 <= m < 10,
        ;
    }
    q * 9 + (m * 9) / 10
}

/// Aggregated cache counters. Every counter saturates at the largest `u64`.
#[derive(Debug, Clone, Copy, PartialEq, Eq, Structural)]
pub struct CacheMetrics {
    pub cache_hits: u64,
    pub cache_misses: u64,
    pub cache_writes: u64,
    /// Tokens served from the cache.
    pub cached_tokens: u64,
    /// Tokens that had to be sent again.
    pub uncached_tokens: u64,
    /// Nine tenths of each hit's tokens, summed.
    pub estimated_savings: u64,
}

/// `a` merged with `b`: field-wise addition.
pub open spec fn merged(a: CacheMetrics, b: CacheMetrics) -> CacheMetrics {
    CacheMetrics {
        cache_hits: sat64(a.cache_hits as nat, b.cache_hits as nat),
        cache_misses: sat64(a.cache_misses as nat, b.cache_misses as nat),
        cache_writes: sat64(a.cache_writes as nat, b.cache_writes as nat),
        cached_tokens: sat64(a.cached_tokens as nat, b.cached_tokens as nat),
        uncached_tokens: sat64(a.uncached_tokens as nat, b.uncached_tokens as nat),
        estimated_savings: sat64(a.estimated_savings as nat, b.estimated_savings as nat),
    }
}

/// The metrics after one hit of `tokens` tokens.
pub open spec fn after_hit(m: CacheMetrics, tokens: nat) -> CacheMetrics {
    CacheMetrics {
        cache_hits: sat64(m.cache_hits as nat, 1),
        cached_tokens: sat64(m.cached_tokens as nat, tokens),
        estimated_savings: sat64(m.estimated_savings as nat, nine_tenths_of(tokens)),
        ..m
    }
}

/// The metrics after one miss of `tokens` tokens.
pub open spec fn after_miss(m: CacheMetrics, tokens: nat) -> CacheMetrics {
    CacheMetrics {
        cache_misses: sat64(m.cache_misses as nat, 1),
        uncached_tokens: sat64(m.uncached_tokens as nat, tokens),
        ..m
    }
}

/// The metrics after one write of `tokens` tokens.
pub open spec fn after_write(m: CacheMetrics, tokens: nat) -> CacheMetrics {
    CacheMetrics {
        cache_writes: sat64(m.cache_writes as nat, 1),
        uncached_tokens: sat64(m.uncached_tokens as nat, tokens),
        ..m
    }
}

/// Hits per million lookups, 0 before any lookup.
pub open spec fn rate_ppm(hits: nat, misses: nat) -> nat {
    if hits + misses == 0 {
        0
    } else {
        (hits * 1_000_000) / (hits + misses)
    }
}

impl CacheMetrics {
    pub fn new() -> (r: Self)
        ensures
            r == (CacheMetrics {
                cache_hits: 0,
                cache_misses: 0,
                cache_writes: 0,
                cached_tokens: 0,
                uncached_tokens: 0,
                estimated_savings: 0,
            }),
    {
        CacheMetrics {
            cache_hits: 0,
            cache_misses: 0,
            cache_writes: 0,
            cached_tokens: 0,
            uncached_tokens: 0,
            estimated_savings: 0,
        }
    }

    pub fn record_hit(&mut self, tokens: usize)
        ensures
            *final(self) == after_hit(*old(self), tokens as nat),
    {
        let t = tokens as u64;
        self.cache_hits = self.cache_hits.saturating_add(1);
        self.cached_tokens = self.cached_tokens.saturating_add(t);
        self.estimated_savings = self.estimated_savings.saturating_add(nine_tenths_u64(t));
    }

    pub fn record_miss(&mut self, tokens: usize)
        ensures
            *final(self) == after_miss(*old(self), tokens as nat),
    {
        self.cache_misses = self.cache_misses.saturating_add(1);
        self.uncached_tokens = self.uncached_tokens.saturating_add(tokens as u64);
    }

    pub fn record_write(&mut self, tokens: usize)
        ensures
            *final(self) == after_write(*old(self), tokens as nat),
    {
        self.cache_writes = self.cache_writes.saturating_add(1);
        self.uncached_tokens = self.uncached_tokens.saturating_add(tokens as u64);
    }

    /// Adds another set of counters into this one.
    pub fn merge(&mut self, other: &CacheMetrics)
        ensures
            *final(self) == merged(*old(self), *other),
    {
        self.cache_hits = self.cache_hits.saturating_add(other.cache_hits);
        self.cache_misses = self.cache_misses.saturating_add(other.cache_misses);
        self.cache_writes = self.cache_writes.saturating_add(other.cache_writes);
        self.cached_tokens = self.cached_tokens.saturating_add(other.cached_tokens);
        self.uncached_tokens = self.uncached_tokens.saturating_add(other.uncached_tokens);
        self.estimated_savings = self.estimated_savings.saturating_add(other.estimated_savings);
    }

    /// The hit rate `hits / (hits + misses)` in millionths; 0 before any lookup.
    pub fn hit_rate_ppm(&self) -> (r: u64)
        ensures
            r == rate_ppm(self.cache_hits as nat, self.cache_misses as nat),
    {
        let h = self.cache_hits as u128;
        let total = h + self.cache_misses as u128;
        if total == 0 {
            0
        } else {
            let r = h * 1_000_000 / total;
            proof {
                let hh = h as int;
                let tt = total as int;
                assert((hh * 1_000_000) / tt <= 1_000_000) by (nonlinear_arith)
                    requires
                        0 <= hh <= tt,
                        tt > 0,
                ;
            }
            r as u64
        }
    }
}

impl Default for CacheMetrics {
    fn default() -> (r: Self)
        ensures
            r == CacheMetrics::new_spec(),
    {
        CacheMetrics::new()
    }
}

/// Merging two sets of counters into a third gives the same counters in
/// either order.
pub proof fn lemma_merge_commutes(m: CacheMetrics, a: CacheMetrics, b: CacheMetrics)
    ensures
        merged(merged(m, a), b) == merged(merged(m, b), a),
{
}

/// How long an entry is meant to live.
#[derive(Debug, Clone, Copy, PartialEq, Eq, Structural)]
pub enum StabilityLevel {
    /// Never evicted.
    Permanent,
    /// Kept for the session, evicted oldest first.
    Session,
    /// Expires after the given milliseconds.
    Temporal(u64),
}

/// One cached item.
#[derive(Debug, Clone)]
pub struct CacheEntry {
    pub key: String,
    pub content_hash: u64,
    pub token_count: usize,
    pub created_at: u64,
    pub last_accessed: u64,
    pub hit_count: u64,
    pub stability: StabilityLevel,
}

/// Outcome of a lookup.
#[derive(Debug, Clone, Copy, PartialEq, Eq, Structural)]
pub enum CacheStatus {
    /// Cached and unchanged; `age_ms` since it was cached.
    Hit { tokens: usize, age_ms: u64 },
    /// Cached under the key, but the content changed.
    Stale,
    /// Nothing cached under the key.
    Miss,
}

/// The index of the entry with `key`, if any.
pub open spec fn index_of(s: Seq<CacheEntry>, key: Seq<char>) -> Option<int> {
    if exists|i: int| 0 <= i < s.len() && (#[trigger] s[i]).key@ == key {
        Some(choose|i: int| 0 <= i < s.len() && (#[trigger] s[i]).key@ == key)
    } else {
        None
    }
}

/// The entry with `key`, if any.
pub open spec fn entry_of(s: Seq<CacheEntry>, key: Seq<char>) -> Option<CacheEntry> {
    match index_of(s, key) {
        Some(i) => Some(s[i]),
        None => None,
    }
}

/// No key occurs twice.
pub open spec fn keys_unique(s: Seq<CacheEntry>) -> bool {
    forall|i: int, j: int| 0 <= i < j < s.len() ==> (#[trigger] s[i]).key@ != (#[trigger] s[j]).key@
}

/// What a lookup of `key` with `hash` at time `now` reports.
pub open spec fn lookup_outcome(s: Seq<CacheEntry>, key: Seq<char>, hash: u64, now: u64) -> CacheStatus {
    match entry_of(s, key) {
        None => CacheStatus::Miss,
        Some(x) => if x.content_hash == hash {
            CacheStatus::Hit {
                tokens: x.token_count,
                age_ms: if now >= x.created_at {
                    (now - x.created_at) as u64
                } else {
                    0
                },
            }
        } else {
            CacheStatus::Stale
        },
    }
}

/// Content just cached under a key is found again by a lookup with the same
/// hash: a hit with the token count it was cached with, whose age does not
/// decrease as the clock advances.
pub proof fn lemma_hit_after_store(
    s: Seq<CacheEntry>,
    key: Seq<char>,
    hash: u64,
    tokens: usize,
    now: u64,
    later: u64,
)
    requires
        entry_of(s, key) is Some,
        entry_of(s, key)->0.content_hash == hash,
        entry_of(s, key)->0.token_count == tokens,
        now <= later,
    ensures
        lookup_outcome(s, key, hash, now) is Hit,
        lookup_outcome(s, key, hash, now)->Hit_tokens == tokens,
        lookup_outcome(s, key, hash, now)->Hit_age_ms <= lookup_outcome(s, key, hash, later)->Hit_age_ms,
{
}

/// A hit leaves the entry's hash and token count in place, so a later
/// lookup of the same key and hash (at a clock not earlier) is again a hit
/// with the same token count and an age no smaller: `after` is the table as
/// `check` leaves it after the first hit at `now`.
pub proof fn lemma_hit_again(
    before: Seq<CacheEntry>,
    after: Seq<CacheEntry>,
    key: Seq<char>,
    hash: u64,
    now: u64,
    later: u64,
)
    requires
        entry_of(before, key) is Some,
        entry_of(before, key)->0.content_hash == hash,
        entry_of(after, key) == Some(
            CacheEntry {
                last_accessed: now,
                hit_count: sat64(entry_of(before, key)->0.hit_count as nat, 1),
                ..entry_of(before, key)->0
            },
        ),
        now <= later,
    ensures
        lookup_outcome(before, key, hash, now) is Hit,
        lookup_outcome(after, key, hash, later) is Hit,
        lookup_outcome(after, key, hash, later)->Hit_tokens == lookup_outcome(before, key, hash, now)->Hit_tokens,
        lookup_outcome(before, key, hash, now)->Hit_age_ms <= lookup_outcome(after, key, hash, later)->Hit_age_ms,
{
}

/// Summary of the tracker's state.
#[derive(Debug, Clone, Copy, PartialEq, Eq, Structural)]
pub struct CacheSummary {
    pub entry_count: usize,
    pub permanent_tokens: usize,
    pub session_tokens: usize,
    pub total_hits: u64,
    pub total_misses: u64,
    /// Hits per million lookups.
    pub hit_rate_ppm: u64,
    pub estimated_savings: u64,
    pub session_duration_ms: u64,
}

/// Remembers what was sent and counts hits and misses.
pub struct CacheTracker {
    entries: Vec<CacheEntry>,
    metrics: CacheMetrics,
    max_entries: usize,
    session_start: u64,
}

impl CacheTracker {
    pub closed spec fn entries_spec(&self) -> Seq<CacheEntry> {
        self.entries@
    }

    pub closed spec fn metrics_spec(&self) -> CacheMetrics {
        self.metrics
    }

    pub closed spec fn max_entries_spec(&self) -> usize {
        self.max_entries
    }

    pub closed spec fn wf(&self) -> bool {
        keys_unique(self.entries@)
    }

    pub fn new(max_entries: usize, now: u64) -> (r: Self)
        ensures
            r.wf(),
            r.entries_spec().len() == 0,
            r.metrics_spec() == CacheMetrics::new_spec(),
            r.max_entries_spec() == max_entries,
    {
        CacheTracker { entries: Vec::new(), metrics: CacheMetrics::new(), max_entries, session_start: now }
    }

    fn find(&self, key: &str) -> (r: Option<usize>)
        requires
            self.wf(),
        ensures
            match r {
                Some(i) => i < self.entries@.len() && self.entries@[i as int].key@ == key@
                    && index_of(self.entries@, key@) == Some(i as int),
                None => index_of(self.entries@, key@) is None,
            },
    {
        let mut i: usize = 0;
        while i < self.entries.len()
            invariant
                i <= self.entries@.len(),
                keys_unique(self.entries@),
                forall|j: int| 0 <= j < i ==> (#[trigger] self.entries@[j]).key@ != key@,
            decreases self.entries@.len() - i,
        {
            if same_text(self.entries[i].key.as_str(), key) {
                proof {
                    let s = self.entries@;
                    let c = choose|j: int| 0 <= j < s.len() && (#[trigger] s[j]).key@ == key@;
                    assert(s[i as int].key@ == key@);
                    assert(c == i) by {
                        if c < i {
                        } else if c > i {
                            assert(keys_unique(s));
                            assert(s[i as int].key@ != s[c].key@);
                        }
                    }
                }
                return Some(i);
            }
            i = i + 1;
        }
        None
    }

    /// Caches content under `key`, replacing what was there; a table at
    /// capacity first evicts its oldest non-permanent quarter.
    pub fn cache_content(&mut self, key: &str, content_hash: u64, token_count: usize, permanent: bool, now: u64)
        requires
            old(self).wf(),
        ensures
            final(self).wf(),
            final(self).max_entries_spec() == old(self).max_entries_spec(),
            final(self).metrics_spec() == after_write(old(self).metrics_spec(), token_count as nat),
            ({
                let e = entry_of(final(self).entries_spec(), key@);
                &&& e is Some
                &&& e->0.content_hash == content_hash
                &&& e->0.token_count == token_count
                &&& e->0.created_at == now
                &&& e->0.last_accessed == now
                &&& e->0.hit_count == 0
                &&& e->0.stability == if permanent {
                    StabilityLevel::Permanent
                } else {
                    StabilityLevel::Session
                }
            }),
            forall|k: Seq<char>|
                k != key@ && #[trigger] entry_of(final(self).entries_spec(), k) is Some ==> entry_of(
                    final(self).entries_spec(),
                    k,
                ) == entry_of(old(self).entries_spec(), k),
            old(self).entries_spec().len() < old(self).max_entries_spec() ==> forall|k: Seq<char>|
                k != key@ ==> #[trigger] entry_of(final(self).entries_spec(), k) == entry_of(
                    old(self).entries_spec(),
                    k,
                ),
            evicted_lru(
                others(old(self).entries_spec(), key@),
                others(final(self).entries_spec(), key@),
            ),
            exists|mid: Seq<CacheEntry>|
                evicted_quarter(old(self).entries_spec(), mid, old(self).max_entries_spec())
                    && forall|k: Seq<char>|
                    k != key@ ==> #[trigger] entry_of(final(self).entries_spec(), k) == entry_of(mid, k),
    {
        proof {
            assert(evicted_lru(self.entries@, self.entries@));
        }
        if self.entries.len() >= self.max_entries {
            self.evict_lru();
        }
        let ghost mid = self.entries@;
        assert(evicted_quarter(old(self).entries@, mid, old(self).max_entries));
        if let Some(i) = self.find(key) {
            self.entries.remove(i);
            proof {
                assert forall|k: Seq<char>| k != key@ implies #[trigger] entry_of(self.entries@, k) == entry_of(mid, k) by {
                    lemma_entry_after_remove(mid, i as int, k);
                }
            }
        }
        let ghost before_push = self.entries@;
        let entry = CacheEntry {
            key: String::from_str(key),
            content_hash,
            token_count,
            created_at: now,
            last_accessed: now,
            hit_count: 0,
            stability: if permanent {
                StabilityLevel::Permanent
            } else {
                StabilityLevel::Session
            },
        };
        proof {
            lemma_removed_key_absent(mid, before_push, key@);
        }
        self.entries.push(entry);
        proof {
            assert(self.entries@.drop_last() == before_push);
            lemma_entry_after_push(before_push, self.entries@, key@);
            lemma_others_kept(old(self).entries@, mid, before_push, self.entries@, key@);
            assert forall|k: Seq<char>| k != key@ implies #[trigger] entry_of(self.entries@, k) == entry_of(mid, k) by {
                assert(entry_of(self.entries@, k) == entry_of(before_push, k));
            }
        }
        self.metrics.record_write(token_count);
        proof {
            assert(evicted_quarter(old(self).entries_spec(), mid, old(self).max_entries_spec()) && forall|k: Seq<char>|
                k != key@ ==> #[trigger] entry_of(self.entries_spec(), k) == entry_of(mid, k));
        }
    }

    /// Removes up to a quarter of the capacity, oldest access first, never a
    /// permanent entry.
    fn evict_lru(&mut self)
        requires
            old(self).wf(),
        ensures
            final(self).wf(),
            final(self).max_entries == old(self).max_entries,
            final(self).metrics == old(self).metrics,
            forall|k: Seq<char>|
                #[trigger] entry_of(final(self).entries@, k) is Some ==> entry_of(final(self).entries@, k)
                    == entry_of(old(self).entries@, k),
            evicted_lru(old(self).entries@, final(self).entries@),
            final(self).entries@.len() == old(self).entries@.len() - min_nat(
                (old(self).max_entries / 4) as nat,
                evictable_count(old(self).entries@),
            ),
    {
        let count = self.max_entries / 4;
        let mut n: usize = 0;
        while n < count
            invariant
                self.wf(),
                n <= count,
                count == old(self).max_entries / 4,
                self.entries@.len() + n == old(self).entries@.len(),
                evictable_count(self.entries@) + n == evictable_count(old(self).entries@),
                self.max_entries == old(self).max_entries,
                self.metrics == old(self).metrics,
                forall|k: Seq<char>|
                    #[trigger] entry_of(self.entries@, k) is Some ==> entry_of(self.entries@, k)
                        == entry_of(old(self).entries@, k),
                evicted_lru(old(self).entries@, self.entries@),
            ensures
                n == count || evictable_count(self.entries@) == 0,
            decreases count - n,
        {
            let mut best: Option<usize> = None;
            let mut i: usize = 0;
            while i < self.entries.len()
                invariant
                    i <= self.entries@.len(),
                    match best {
                        Some(b) => b < i && evictable(self.entries@[b as int]) && forall|j: int|
                            0 <= j < i && evictable(#[trigger] self.entries@[j])
                                ==> self.entries@[b as int].last_accessed <= self.entries@[j].last_accessed,
                        None => forall|j: int| 0 <= j < i ==> !evictable(#[trigger] self.entries@[j]),
                    },
                decreases self.entries@.len() - i,
            {
                let candidate = !matches!(self.entries[i].stability, StabilityLevel::Permanent);
                if candidate {
                    best = match best {
                        Some(b) => if self.entries[i].last_accessed < self.entries[b].last_accessed {
                            Some(i)
                        } else {
                            Some(b)
                        },
                        None => Some(i),
                    };
                }
                i = i + 1;
            }
            match best {
                Some(b) => {
                    let ghost pre = self.entries@;
                    self.entries.remove(b);
                    proof {
                        assert forall|k: Seq<char>|
                            #[trigger] entry_of(self.entries@, k) is Some implies entry_of(self.entries@, k)
                                == entry_of(old(self).entries@, k) by {
                            lemma_entry_after_remove(pre, b as int, k);
                        }
                        lemma_unique_after_remove(pre, b as int);
                        lemma_evict_step(old(self).entries@, pre, b as int);
                        lemma_count_after_remove(pre, b as int);
                    }
                },
                None => {
                    proof {
                        lemma_count_none(self.entries@);
                    }
                    break;
                },
            }
            n = n + 1;
        }
    }

    /// Looks `key` up. A matching hash is a hit: the entry's access time and
    /// hit count are updated and the hit is counted. A different hash is
    /// stale and counted as a miss of the old token count. No entry is a miss.
    pub fn check(&mut self, key: &str, content_hash: u64, now: u64) -> (r: CacheStatus)
        requires
            old(self).wf(),
        ensures
            final(self).wf(),
            final(self).max_entries_spec() == old(self).max_entries_spec(),
            r == lookup_outcome(old(self).entries_spec(), key@, content_hash, now),
            ({
                let e = entry_of(old(self).entries_spec(), key@);
                match e {
                    None => r == CacheStatus::Miss && final(self).metrics_spec() == old(
                        self,
                    ).metrics_spec() && final(self).entries_spec() == old(self).entries_spec(),
                    Some(x) => if x.content_hash == content_hash {
                        &&& r == CacheStatus::Hit {
                            tokens: x.token_count,
                            age_ms: if now >= x.created_at {
                                (now - x.created_at) as u64
                            } else {
                                0
                            },
                        }
                        &&& final(self).metrics_spec() == after_hit(
                            old(self).metrics_spec(),
                            x.token_count as nat,
                        )
                        &&& entry_of(final(self).entries_spec(), key@) == Some(
                            CacheEntry {
                                last_accessed: now,
                                hit_count: sat64(x.hit_count as nat, 1),
                                ..x
                            },
                        )
                    } else {
                        &&& r == CacheStatus::Stale
                        &&& final(self).metrics_spec() == after_miss(
                            old(self).metrics_spec(),
                            x.token_count as nat,
                        )
                        &&& final(self).entries_spec() == old(self).entries_spec()
                    },
                }
            }),
            forall|k: Seq<char>|
                k != key@ ==> #[trigger] entry_of(final(self).entries_spec(), k) == entry_of(
                    old(self).entries_spec(),
                    k,
                ),
    {
        match self.find(key) {
            None => CacheStatus::Miss,
            Some(i) => {
                if self.entries[i].content_hash == content_hash {
                    let ghost pre = self.entries@;
                    let old_entry = self.entries.remove(i);
                    let tokens = old_entry.token_count;
                    let age = now.saturating_sub(old_entry.created_at);
                    let updated = CacheEntry {
                        last_accessed: now,
                        hit_count: old_entry.hit_count.saturating_add(1),
                        ..old_entry
                    };
                    self.entries.insert(i, updated);
                    proof {
                        lemma_entry_after_replace(pre, self.entries@, i as int);
                    }
                    self.metrics.record_hit(tokens);
                    CacheStatus::Hit { tokens, age_ms: age }
                } else {
                    let tokens = self.entries[i].token_count;
                    self.metrics.record_miss(tokens);
                    CacheStatus::Stale
                }
            },
        }
    }

    /// Drops the entry under `key`, if any.
    pub fn invalidate(&mut self, key: &str)
        requires
            old(self).wf(),
        ensures
            final(self).wf(),
            final(self).max_entries_spec() == old(self).max_entries_spec(),
            final(self).metrics_spec() == old(self).metrics_spec(),
            entry_of(final(self).entries_spec(), key@) is None,
            forall|k: Seq<char>|
                k != key@ ==> #[trigger] entry_of(final(self).entries_spec(), k) == entry_of(
                    old(self).entries_spec(),
                    k,
                ),
    {
        if let Some(i) = self.find(key) {
            let ghost pre = self.entries@;
            self.entries.remove(i);
            proof {
                assert forall|k: Seq<char>| k != key@ implies #[trigger] entry_of(self.entries@, k) == entry_of(pre, k) by {
                    lemma_entry_after_remove(pre, i as int, k);
                }
                lemma_unique_after_remove(pre, i as int);
                lemma_removed_key_absent(pre, self.entries@, key@);
            }
        }
    }

    /// Drops every entry.
    pub fn clear(&mut self)
        ensures
            final(self).wf(),
            final(self).entries_spec().len() == 0,
            final(self).metrics_spec() == old(self).metrics_spec(),
            final(self).max_entries_spec() == old(self).max_entries_spec(),
    {
        self.entries = Vec::new();
    }

    pub fn get_metrics(&self) -> (r: CacheMetrics)
        ensures
            r == self.metrics_spec(),
    {
        self.metrics
    }

    pub fn reset_metrics(&mut self)
        ensures
            final(self).metrics_spec() == CacheMetrics::new_spec(),
            final(self).entries_spec() == old(self).entries_spec(),
            final(self).max_entries_spec() == old(self).max_entries_spec(),
            final(self).wf() == old(self).wf(),
    {
        self.metrics = CacheMetrics::new();
    }

    pub fn entry_count(&self) -> (r: usize)
        ensures
            r == self.entries_spec().len(),
    {
        self.entries.len()
    }

    /// Token counts of the entries with (`permanent`) or without a permanent
    /// stability, summed with saturation.
    fn tokens_where(&self, permanent: bool) -> (r: usize)
        ensures
            r == tokens_of(self.entries@, permanent),
    {
        let mut total: usize = 0;
        let mut i: usize = 0;
        while i < self.entries.len()
            invariant
                i <= self.entries@.len(),
                total == tokens_of(self.entries@.subrange(0, i as int), permanent),
            decreases self.entries@.len() - i,
        {
            proof {
                assert(self.entries@.subrange(0, i + 1).drop_last() == self.entries@.subrange(0, i as int));
            }
            let is_perm = matches!(self.entries[i].stability, StabilityLevel::Permanent);
            if is_perm == permanent {
                total = total.saturating_add(self.entries[i].token_count);
            }
            i = i + 1;
        }
        proof {
            assert(self.entries@.subrange(0, self.entries@.len() as int) == self.entries@);
        }
        total
    }

    /// Tokens held by all entries.
    pub fn total_cached_tokens(&self) -> (r: usize)
        ensures
            r == sat_usize(tokens_of(self.entries_spec(), true), tokens_of(self.entries_spec(), false)),
    {
        self.tokens_where(true).saturating_add(self.tokens_where(false))
    }

    pub fn summary(&self, now: u64) -> (r: CacheSummary)
        ensures
            r.entry_count == self.entries_spec().len(),
            r.total_hits == self.metrics_spec().cache_hits,
            r.total_misses == self.metrics_spec().cache_misses,
            r.hit_rate_ppm == rate_ppm(
                self.metrics_spec().cache_hits as nat,
                self.metrics_spec().cache_misses as nat,
            ),
            r.estimated_savings == self.metrics_spec().estimated_savings,
            r.permanent_tokens == tokens_of(self.entries_spec(), true),
            r.session_tokens == tokens_of(self.entries_spec(), false),
    {
        CacheSummary {
            entry_count: self.entries.len(),
            permanent_tokens: self.tokens_where(true),
            session_tokens: self.tokens_where(false),
            total_hits: self.metrics.cache_hits,
            total_misses: self.metrics.cache_misses,
            hit_rate_ppm: self.metrics.hit_rate_ppm(),
            estimated_savings: self.metrics.estimated_savings,
            session_duration_ms: now.saturating_sub(self.session_start),
        }
    }
}

impl CacheMetrics {
    pub open spec fn new_spec() -> CacheMetrics {
        CacheMetrics {
            cache_hits: 0,
            cache_misses: 0,
            cache_writes: 0,
            cached_tokens: 0,
            uncached_tokens: 0,
            estimated_savings: 0,
        }
    }
}

/// Addition that stops at the largest `usize`.
pub open spec fn sat_usize(a: nat, b: nat) -> nat {
    if a + b > usize::MAX { usize::MAX as nat } else { a + b }
}

/// Tokens of the entries that are (`permanent`) or are not permanent.
pub open spec fn tokens_of(s: Seq<CacheEntry>, permanent: bool) -> nat
    decreases s.len(),
{
    if s.len() == 0 {
        0
    } else {
        sat_usize(
            tokens_of(s.drop_last(), permanent),
            if (s.last().stability is Permanent) == permanent { s.last().token_count as nat } else { 0 },
        )
    }
}

/// An entry the tracker may evict.
pub open spec fn evictable(e: CacheEntry) -> bool {
    !(e.stability is Permanent)
}

pub open spec fn min_nat(a: nat, b: nat) -> nat {
    if a <= b { a } else { b }
}

/// How many entries of `s` may be evicted.
pub open spec fn evictable_count(s: Seq<CacheEntry>) -> nat
    decreases s.len(),
{
    if s.len() == 0 {
        0
    } else {
        evictable_count(s.drop_last()) + if evictable(s.last()) { 1nat } else { 0nat }
    }
}

proof fn lemma_count_after_remove(s: Seq<CacheEntry>, b: int)
    requires
        0 <= b < s.len(),
        evictable(s[b]),
    ensures
        evictable_count(s.remove(b)) + 1 == evictable_count(s),
    decreases s.len(),
{
    if b == s.len() - 1 {
        assert(s.remove(b) =~= s.drop_last());
    } else {
        assert(s.remove(b).drop_last() =~= s.drop_last().remove(b));
        assert(s.remove(b).last() == s.last());
        lemma_count_after_remove(s.drop_last(), b);
    }
}

proof fn lemma_count_none(s: Seq<CacheEntry>)
    requires
        forall|j: int| 0 <= j < s.len() ==> !evictable(#[trigger] s[j]),
    ensures
        evictable_count(s) == 0,
    decreases s.len(),
{
    if s.len() > 0 {
        assert(!evictable(s[s.len() - 1]));
        lemma_count_none(s.drop_last());
    }
}

/// `post` is what eviction at capacity `max` leaves of `pre`: the least
/// recently used evictable entries, a quarter of the capacity of them (or
/// all there are), are gone.
pub open spec fn evicted_quarter(pre: Seq<CacheEntry>, post: Seq<CacheEntry>, max: usize) -> bool {
    &&& evicted_lru(pre, post)
    &&& keys_unique(post)
    &&& post.len() == pre.len() - if pre.len() >= max {
        min_nat((max / 4) as nat, evictable_count(pre))
    } else {
        0
    }
}

/// `post` is what is left of `pre` after evicting least recently used
/// entries: nothing new, every permanent entry kept, and every entry that
/// went was accessed no later than any evictable entry that stayed.
pub open spec fn evicted_lru(pre: Seq<CacheEntry>, post: Seq<CacheEntry>) -> bool {
    &&& forall|j: int| 0 <= j < post.len() ==> pre.contains(#[trigger] post[j])
    &&& forall|i: int| 0 <= i < pre.len() && !evictable(#[trigger] pre[i]) ==> post.contains(pre[i])
    &&& forall|i: int, j: int|
        0 <= i < pre.len() && 0 <= j < post.len() && !post.contains(#[trigger] pre[i]) && evictable(
            #[trigger] post[j],
        ) ==> pre[i].last_accessed <= post[j].last_accessed
}

/// The entries whose key is not `key`.
pub open spec fn others(s: Seq<CacheEntry>, key: Seq<char>) -> Seq<CacheEntry> {
    s.filter(other_key(key))
}

pub open spec fn other_key(key: Seq<char>) -> spec_fn(CacheEntry) -> bool {
    |e: CacheEntry| e.key@ != key
}

proof fn lemma_others_contains(s: Seq<CacheEntry>, key: Seq<char>, x: CacheEntry)
    ensures
        others(s, key).contains(x) <==> (s.contains(x) && x.key@ != key),
{
    let f = other_key(key);
    let t = s.filter(f);
    if s.contains(x) && x.key@ != key {
        let i = choose|i: int| 0 <= i < s.len() && s[i] == x;
        assert(f(s[i]));
        s.lemma_filter_contains(f, i);
    }
    if t.contains(x) {
        s.lemma_filter_contains_rev(f, x);
        let j = choose|j: int| 0 <= j < t.len() && t[j] == x;
        s.lemma_filter_pred(f, j);
    }
}

proof fn lemma_others_kept(
    orig: Seq<CacheEntry>,
    mid: Seq<CacheEntry>,
    before_push: Seq<CacheEntry>,
    fin: Seq<CacheEntry>,
    key: Seq<char>,
)
    requires
        evicted_lru(orig, mid),
        keys_unique(mid),
        index_of(mid, key) is None ==> before_push == mid,
        index_of(mid, key) is Some ==> exists|i: int|
            0 <= i < mid.len() && mid[i].key@ == key && before_push == mid.remove(i),
        fin.len() == before_push.len() + 1,
        fin.drop_last() == before_push,
        fin.last().key@ == key,
    ensures
        evicted_lru(others(orig, key), others(fin, key)),
{
    let o = others(orig, key);
    let q = others(fin, key);
    assert forall|x: CacheEntry| x.key@ != key implies (fin.contains(x) <==> mid.contains(x)) by {
        if fin.contains(x) {
            let j = choose|j: int| 0 <= j < fin.len() && fin[j] == x;
            assert(j < before_push.len());
            assert(before_push[j] == x);
            if index_of(mid, key) is Some {
                let i = choose|i: int| 0 <= i < mid.len() && mid[i].key@ == key && before_push == mid.remove(i);
                let oj = if j < i { j } else { j + 1 };
                assert(mid[oj] == x);
            } else {
                assert(mid[j] == x);
            }
        }
        if mid.contains(x) {
            let j = choose|j: int| 0 <= j < mid.len() && mid[j] == x;
            if index_of(mid, key) is Some {
                let i = choose|i: int| 0 <= i < mid.len() && mid[i].key@ == key && before_push == mid.remove(i);
                assert(j != i);
                let pj = if j < i { j } else { j - 1 };
                assert(before_push[pj] == x);
                assert(fin[pj] == x);
            } else {
                assert(fin[j] == x);
            }
        }
    }
    assert forall|j: int| 0 <= j < q.len() implies o.contains(#[trigger] q[j]) by {
        assert(q.contains(q[j]));
        lemma_others_contains(fin, key, q[j]);
        let jj = choose|jj: int| 0 <= jj < mid.len() && mid[jj] == q[j];
        assert(orig.contains(mid[jj]));
        lemma_others_contains(orig, key, q[j]);
    }
    assert forall|i: int| 0 <= i < o.len() && !evictable(#[trigger] o[i]) implies q.contains(o[i]) by {
        assert(o.contains(o[i]));
        lemma_others_contains(orig, key, o[i]);
        let ii = choose|ii: int| 0 <= ii < orig.len() && orig[ii] == o[i];
        assert(mid.contains(orig[ii]));
        lemma_others_contains(fin, key, o[i]);
    }
    assert forall|i: int, j: int|
        0 <= i < o.len() && 0 <= j < q.len() && !q.contains(#[trigger] o[i]) && evictable(#[trigger] q[j])
        implies o[i].last_accessed <= q[j].last_accessed by {
        assert(o.contains(o[i]));
        lemma_others_contains(orig, key, o[i]);
        lemma_others_contains(fin, key, o[i]);
        let ii = choose|ii: int| 0 <= ii < orig.len() && orig[ii] == o[i];
        assert(!mid.contains(orig[ii]));
        assert(q.contains(q[j]));
        lemma_others_contains(fin, key, q[j]);
        let jj = choose|jj: int| 0 <= jj < mid.len() && mid[jj] == q[j];
        assert(evictable(mid[jj]));
    }
}

proof fn lemma_evict_step(orig: Seq<CacheEntry>, pre: Seq<CacheEntry>, b: int)
    requires
        keys_unique(pre),
        0 <= b < pre.len(),
        evictable(pre[b]),
        forall|j: int| 0 <= j < pre.len() && evictable(#[trigger] pre[j]) ==> pre[b].last_accessed <= pre[j].last_accessed,
        evicted_lru(orig, pre),
    ensures
        evicted_lru(orig, pre.remove(b)),
{
    let post = pre.remove(b);
    assert forall|j: int| 0 <= j < post.len() implies orig.contains(#[trigger] post[j]) by {
        let oj = if j < b { j } else { j + 1 };
        assert(post[j] == pre[oj]);
    }
    assert forall|x: CacheEntry| pre.contains(x) && x != pre[b] implies post.contains(x) by {
        let j = choose|j: int| 0 <= j < pre.len() && pre[j] == x;
        assert(j != b);
        let pj = if j < b { j } else { j - 1 };
        assert(post[pj] == x);
    }
    assert forall|i: int| 0 <= i < orig.len() && !evictable(#[trigger] orig[i]) implies post.contains(orig[i]) by {
        assert(pre.contains(orig[i]));
        assert(orig[i] != pre[b]);
    }
    assert forall|i: int, j: int|
        0 <= i < orig.len() && 0 <= j < post.len() && !post.contains(#[trigger] orig[i]) && evictable(
            #[trigger] post[j],
        ) implies orig[i].last_accessed <= post[j].last_accessed by {
        let oj = if j < b { j } else { j + 1 };
        assert(post[j] == pre[oj]);
        if pre.contains(orig[i]) {
            if orig[i] != pre[b] {
                assert(post.contains(orig[i]));
            }
        }
    }
}

proof fn lemma_entry_after_remove(pre: Seq<CacheEntry>, i: int, k: Seq<char>)
    requires
        keys_unique(pre),
        0 <= i < pre.len(),
    ensures
        k != pre[i].key@ ==> entry_of(pre.remove(i), k) == entry_of(pre, k),
        entry_of(pre.remove(i), k) is Some ==> entry_of(pre.remove(i), k) == entry_of(pre, k),
        keys_unique(pre.remove(i)),
{
    let post = pre.remove(i);
    lemma_unique_after_remove(pre, i);
    if exists|j: int| 0 <= j < post.len() && (#[trigger] post[j]).key@ == k {
        let j = choose|j: int| 0 <= j < post.len() && (#[trigger] post[j]).key@ == k;
        let oj = if j < i { j } else { j + 1 };
        assert(pre[oj] == post[j]);
        let c = choose|c: int| 0 <= c < pre.len() && (#[trigger] pre[c]).key@ == k;
        assert(c == oj) by {
            if c != oj {
                if c < oj {
                    assert(pre[c].key@ != pre[oj].key@);
                } else {
                    assert(pre[oj].key@ != pre[c].key@);
                }
            }
        }
    } else {
        if k != pre[i].key@ {
            if exists|c: int| 0 <= c < pre.len() && (#[trigger] pre[c]).key@ == k {
                let c = choose|c: int| 0 <= c < pre.len() && (#[trigger] pre[c]).key@ == k;
                let pj = if c < i { c } else { c - 1 };
                assert(post[pj] == pre[c]);
            }
        }
    }
}

proof fn lemma_unique_after_remove(pre: Seq<CacheEntry>, i: int)
    requires
        keys_unique(pre),
        0 <= i < pre.len(),
    ensures
        keys_unique(pre.remove(i)),
{
    let post = pre.remove(i);
    assert forall|a: int, b: int| 0 <= a < b < post.len() implies (#[trigger] post[a]).key@ != (
    #[trigger] post[b]).key@ by {
        let oa = if a < i { a } else { a + 1 };
        let ob = if b < i { b } else { b + 1 };
        assert(post[a] == pre[oa]);
        assert(post[b] == pre[ob]);
    }
}

proof fn lemma_removed_key_absent(mid: Seq<CacheEntry>, post: Seq<CacheEntry>, key: Seq<char>)
    requires
        keys_unique(mid),
        index_of(mid, key) is None || (exists|i: int|
            0 <= i < mid.len() && mid[i].key@ == key && post == mid.remove(i)),
        index_of(mid, key) is None ==> post == mid,
    ensures
        index_of(post, key) is None,
{
    if exists|j: int| 0 <= j < post.len() && (#[trigger] post[j]).key@ == key {
        let j = choose|j: int| 0 <= j < post.len() && (#[trigger] post[j]).key@ == key;
        if index_of(mid, key) is None {
            assert(mid[j].key@ == key);
        } else {
            let i = choose|i: int| 0 <= i < mid.len() && mid[i].key@ == key && post == mid.remove(i);
            let oj = if j < i { j } else { j + 1 };
            assert(post[j] == mid[oj]);
            if oj < i {
                assert(mid[oj].key@ != mid[i].key@);
            } else {
                assert(mid[i].key@ != mid[oj].key@);
            }
        }
    }
}

proof fn lemma_entry_after_push(pre: Seq<CacheEntry>, post: Seq<CacheEntry>, key: Seq<char>)
    requires
        keys_unique(pre),
        index_of(pre, key) is None,
        post.len() == pre.len() + 1,
        post.drop_last() == pre,
        post.last().key@ == key,
    ensures
        keys_unique(post),
        entry_of(post, key) == Some(post.last()),
        forall|k: Seq<char>| k != key ==> #[trigger] entry_of(post, k) == entry_of(pre, k),
{
    assert forall|a: int, b: int| 0 <= a < b < post.len() implies (#[trigger] post[a]).key@ != (
    #[trigger] post[b]).key@ by {
        assert(post[a] == pre[a]);
        if b < pre.len() {
            assert(post[b] == pre[b]);
        } else {
            assert(pre[a].key@ != key);
        }
    }
    let n = pre.len() as int;
    assert(post[n].key@ == key);
    let c = choose|c: int| 0 <= c < post.len() && (#[trigger] post[c]).key@ == key;
    assert(c == n) by {
        if c < n {
            assert(post[c] == pre[c]);
        }
    }
    assert forall|k: Seq<char>| k != key implies #[trigger] entry_of(post, k) == entry_of(pre, k) by {
        if exists|j: int| 0 <= j < post.len() && (#[trigger] post[j]).key@ == k {
            let j = choose|j: int| 0 <= j < post.len() && (#[trigger] post[j]).key@ == k;
            assert(j < n);
            assert(post[j] == pre[j]);
            let c2 = choose|c2: int| 0 <= c2 < pre.len() && (#[trigger] pre[c2]).key@ == k;
            assert(c2 == j) by {
                if c2 < j {
                    assert(pre[c2].key@ != pre[j].key@);
                } else if c2 > j {
                    assert(pre[j].key@ != pre[c2].key@);
                }
            }
        } else {
            if exists|c2: int| 0 <= c2 < pre.len() && (#[trigger] pre[c2]).key@ == k {
                let c2 = choose|c2: int| 0 <= c2 < pre.len() && (#[trigger] pre[c2]).key@ == k;
                assert(post[c2] == pre[c2]);
            }
        }
    }
}

proof fn lemma_entry_after_replace(pre: Seq<CacheEntry>, post: Seq<CacheEntry>, i: int)
    requires
        keys_unique(pre),
        0 <= i < pre.len(),
        post.len() == pre.len(),
        post[i].key == pre[i].key,
        forall|j: int| 0 <= j < pre.len() && j != i ==> post[j] == pre[j],
    ensures
        keys_unique(post),
        entry_of(post, pre[i].key@) == Some(post[i]),
        forall|k: Seq<char>| k != pre[i].key@ ==> #[trigger] entry_of(post, k) == entry_of(pre, k),
{
    assert forall|a: int, b: int| 0 <= a < b < post.len() implies (#[trigger] post[a]).key@ != (
    #[trigger] post[b]).key@ by {
        assert(pre[a].key@ != pre[b].key@);
    }
    let key = pre[i].key@;
    assert(post[i].key@ == key);
    let c = choose|c: int| 0 <= c < post.len() && (#[trigger] post[c]).key@ == key;
    assert(c == i) by {
        if c != i {
            assert(post[c] == pre[c]);
            if c < i {
                assert(pre[c].key@ != pre[i].key@);
            } else {
                assert(pre[i].key@ != pre[c].key@);
            }
        }
    }
    assert forall|k: Seq<char>| k != key implies #[trigger] entry_of(post, k) == entry_of(pre, k) by {
        if exists|j: int| 0 <= j < post.len() && (#[trigger] post[j]).key@ == k {
            let j = choose|j: int| 0 <= j < post.len() && (#[trigger] post[j]).key@ == k;
            assert(j != i);
            assert(post[j] == pre[j]);
            let c2 = choose|c2: int| 0 <= c2 < pre.len() && (#[trigger] pre[c2]).key@ == k;
            assert(c2 == j) by {
                if c2 < j {
                    assert(pre[c2].key@ != pre[j].key@);
                } else if c2 > j {
                    assert(pre[j].key@ != pre[c2].key@);
                }
            }
        } else {
            if exists|c2: int| 0 <= c2 < pre.len() && (#[trigger] pre[c2]).key@ == k {
                let c2 = choose|c2: int| 0 <= c2 < pre.len() && (#[trigger] pre[c2]).key@ == k;
                assert(c2 != i);
                assert(post[c2] == pre[c2]);
            }
        }
    }
}

} // verus!

//! The response cache as a mathematical state machine.

use vstd::prelude::*;

use crate::json::Json;
use crate::key::CacheKey;

verus! {

/// A cached response and the time, in nanoseconds, at which it was stored.
pub ghost struct StoredResponse {
    pub response: Json,
    pub stored_at: int,
}

/// What the warm-up has seen of a key.
pub ghost struct Sighting {
    /// How many times in a row the same response came back.
    pub count: int,
    /// When the current count began.
    pub first_seen: int,
    /// The fingerprint of the latest response.
    pub response_hash: u64,
    /// Whether the count has reached the threshold.
    pub warmed_up: bool,
}

/// The state of the cache. Times and durations are in nanoseconds.
#[verifier::ext_equal]
pub ghost struct CacheState {
    pub entries: Map<CacheKey, StoredResponse>,
    /// The cached keys, the one that was used longest ago first.
    pub order: Seq<CacheKey>,
    pub occurrences: Map<CacheKey, Sighting>,
    pub hits: int,
    pub misses: int,
    pub stores: int,
    pub evictions: int,
    pub expirations: int,
    pub oversize_skips: int,
    pub ttl: int,
    pub max_entries: int,
    pub max_request_bytes: int,
    pub min_hit_count: int,
    pub warmup_window: int,
}

/// The time that has passed at `now` since `since`; none if `since` is still to come.
pub open spec fn elapsed(since: int, now: int) -> int {
    if now > since {
        now - since
    } else {
        0
    }
}

/// `order` without `key`.
pub open spec fn without(order: Seq<CacheKey>, key: CacheKey) -> Seq<CacheKey> {
    order.filter(|k: CacheKey| k != key)
}

impl CacheState {
    /// A cache that holds nothing.
    pub open spec fn empty(ttl: int, max_entries: int, max_request_bytes: int) -> CacheState {
        CacheState {
            entries: Map::empty(),
            order: Seq::empty(),
            occurrences: Map::empty(),
            hits: 0,
            misses: 0,
            stores: 0,
            evictions: 0,
            expirations: 0,
            oversize_skips: 0,
            ttl,
            max_entries,
            max_request_bytes,
            min_hit_count: 0,
            warmup_window: 0,
        }
    }

    /// What every operation keeps: the keys in `order` are the cached keys, each once; there are
    /// no more than `max_entries` of them; the table of sightings holds no more than twice as many
    /// keys; a count that has not reached the threshold can still grow.
    pub open spec fn valid(self) -> bool {
        &&& self.order.no_duplicates()
        &&& self.order.to_set() == self.entries.dom()
        &&& self.order.len() <= self.max_entries
        &&& 0 <= self.min_hit_count <= u32::MAX
        &&& 0 <= self.ttl
        &&& 0 <= self.warmup_window
        &&& self.occurrences.dom().finite()
        &&& self.occurrences.dom().len() <= self.max_entries * 2
        &&& forall|key: CacheKey| #[trigger]
            self.occurrences.contains_key(key) ==> {
                let seen = self.occurrences[key];
                0 <= seen.count && (seen.warmed_up || seen.count < u32::MAX)
            }
    }

    /// Whether the counters fit into 64 bits.
    pub open spec fn counters_fit(self) -> bool {
        &&& self.hits <= u64::MAX
        &&& self.misses <= u64::MAX
        &&& self.stores <= u64::MAX
        &&& self.evictions <= u64::MAX
        &&& self.expirations <= u64::MAX
        &&& self.oversize_skips <= u64::MAX
    }

    /// Whether the counters are far enough from their limit for any one operation.
    pub open spec fn can_count(self) -> bool {
        &&& self.hits < u64::MAX
        &&& self.misses < u64::MAX
        &&& self.stores < u64::MAX
        &&& self.evictions + self.order.len() <= u64::MAX
        &&& self.expirations < u64::MAX
        &&& self.oversize_skips < u64::MAX
    }

    /// Whether the response under `key` has outlived the time to live.
    pub open spec fn is_expired(self, key: CacheKey, now: int) -> bool {
        elapsed(self.entries[key].stored_at, now) > self.ttl
    }

    /// Whether there is a response under `key` that can be served.
    pub open spec fn is_live(self, key: CacheKey, now: int) -> bool {
        self.entries.contains_key(key) && !self.is_expired(key, now)
    }

    /// The state without the response under `key`, which has expired.
    pub open spec fn expired(self, key: CacheKey) -> CacheState {
        CacheState {
            entries: self.entries.remove(key),
            order: without(self.order, key),
            expirations: self.expirations + 1,
            ..self
        }
    }

    /// What a lookup finds.
    pub open spec fn found(self, key: CacheKey, now: int) -> Option<Json> {
        if self.is_live(key, now) {
            Some(self.entries[key].response)
        } else {
            None
        }
    }

    /// The state after a lookup: a hit makes the key the one that was used last, a response that
    /// has expired is dropped.
    pub open spec fn after_get(self, key: CacheKey, now: int) -> CacheState {
        if self.is_live(key, now) {
            CacheState {
                order: without(self.order, key).push(key),
                hits: self.hits + 1,
                ..self
            }
        } else if self.entries.contains_key(key) {
            let dropped = self.expired(key);
            CacheState { misses: dropped.misses + 1, ..dropped }
        } else {
            CacheState { misses: self.misses + 1, ..self }
        }
    }

    /// How many responses leave to make room for one more.
    pub open spec fn overflow(self) -> int {
        if self.order.len() < self.max_entries {
            0
        } else {
            self.order.len() - self.max_entries + 1
        }
    }

    /// The state after the responses that were used longest ago have left to make room for one
    /// more.
    pub open spec fn evicted(self) -> CacheState {
        let n = self.overflow();
        CacheState {
            entries: self.entries.remove_keys(self.order.take(n).to_set()),
            order: self.order.skip(n),
            evictions: self.evictions + n,
            ..self
        }
    }

    /// The state with `response` under `key`, as the key that was used last.
    pub open spec fn stored(self, key: CacheKey, response: Json, now: int) -> CacheState {
        CacheState {
            entries: self.entries.insert(key, StoredResponse { response, stored_at: now }),
            order: without(self.order, key).push(key),
            ..self
        }
    }

    /// The state after a response has been handed in. The response to a request that is too
    /// large is not stored, nor is any response in a cache of no entries; a new key makes the
    /// oldest ones leave where there is no room.
    pub open spec fn after_put(
        self,
        key: CacheKey,
        response: Json,
        request_bytes: int,
        now: int,
    ) -> CacheState {
        if request_bytes > self.max_request_bytes {
            CacheState { oversize_skips: self.oversize_skips + 1, ..self }
        } else if self.max_entries == 0 {
            self
        } else if self.entries.contains_key(key) {
            self.stored(key, response, now)
        } else {
            let next = self.evicted().stored(key, response, now);
            CacheState { stores: next.stores + 1, ..next }
        }
    }

    /// Whether the warm-up window of `key` is over.
    pub open spec fn window_over(self, key: CacheKey, now: int) -> bool {
        elapsed(self.occurrences[key].first_seen, now) > self.warmup_window
    }

    /// The state without a response under `key` that has expired.
    pub open spec fn refreshed(self, key: CacheKey, now: int) -> CacheState {
        if self.entries.contains_key(key) && self.is_expired(key, now) {
            self.expired(key)
        } else {
            self
        }
    }

    /// The state without the sightings of `key`, if its window is over.
    pub open spec fn forgotten(self, key: CacheKey, now: int) -> CacheState {
        if self.occurrences.contains_key(key) && self.window_over(key, now) {
            CacheState { occurrences: self.occurrences.remove(key), ..self }
        } else {
            self
        }
    }

    /// Whether the table of sightings is full.
    pub open spec fn table_full(self) -> bool {
        self.occurrences.dom().len() >= self.max_entries * 2
    }

    /// Whether the table of sightings can take a response under `key`: it has the key already, or
    /// it has room for one more.
    pub open spec fn takes(self, key: CacheKey) -> bool {
        self.occurrences.contains_key(key) || !self.table_full()
    }

    /// The state after a full table has been cleared of sightings whose window is over.
    pub open spec fn purged(self, now: int) -> CacheState {
        if self.table_full() {
            CacheState {
                occurrences: self.occurrences.restrict(
                    Set::new(
                        |k: CacheKey| self.occurrences.contains_key(k) && !self.window_over(k, now),
                    ),
                ),
                ..self
            }
        } else {
            self
        }
    }

    /// What the warm-up knows of `key` before the response at hand.
    pub open spec fn sighting(self, key: CacheKey, now: int) -> Sighting {
        if self.occurrences.contains_key(key) {
            self.occurrences[key]
        } else {
            Sighting { count: 0, first_seen: now, response_hash: 0, warmed_up: false }
        }
    }

    /// What the warm-up knows of `key` after one more response with fingerprint `hash`: the same
    /// response as before adds to the count, another one starts it anew.
    pub open spec fn next_sighting(self, key: CacheKey, hash: u64, now: int) -> Sighting {
        let seen = self.sighting(key, now);
        if seen.warmed_up {
            seen
        } else {
            let agrees = seen.count == 0 || seen.response_hash == hash;
            let count = if agrees {
                seen.count + 1
            } else {
                1
            };
            Sighting {
                count,
                first_seen: if agrees {
                    seen.first_seen
                } else {
                    now
                },
                response_hash: hash,
                warmed_up: count >= self.min_hit_count,
            }
        }
    }

    /// The state that a response is counted in: expired things are gone.
    pub open spec fn before_count(self, key: CacheKey, now: int) -> CacheState {
        self.refreshed(key, now).forgotten(key, now).purged(now)
    }

    /// The state after one more response from upstream with fingerprint `hash`.
    pub open spec fn after_record(self, key: CacheKey, hash: u64, now: int) -> CacheState {
        let ready = self.before_count(key, now);
        if self.min_hit_count == 0 || self.is_live(key, now) {
            self
        } else if !ready.takes(key) {
            ready
        } else {
            CacheState {
                occurrences: ready.occurrences.insert(key, ready.next_sighting(key, hash, now)),
                ..ready
            }
        }
    }

    /// Whether, with one more response with fingerprint `hash`, the key has reached the threshold.
    pub open spec fn reaches(self, key: CacheKey, hash: u64, now: int) -> bool {
        let ready = self.before_count(key, now);
        ||| self.min_hit_count == 0
        ||| self.is_live(key, now)
        ||| ready.takes(key) && ready.next_sighting(key, hash, now).warmed_up
    }

    /// Whether responses under `key` may be served. What was counted stands for no longer than its
    /// window lasts.
    pub open spec fn warmed_up(self, key: CacheKey, now: int) -> bool {
        ||| self.min_hit_count == 0
        ||| self.is_live(key, now)
        ||| self.occurrences.contains_key(key) && self.occurrences[key].warmed_up
            && !self.window_over(key, now)
    }

    /// The keys that the warm-up still watches.
    pub open spec fn warming(self) -> Set<CacheKey> {
        self.occurrences.dom().filter(|k: CacheKey| !self.occurrences[k].warmed_up)
    }

    /// The state after everything has been dropped. The counters stay.
    pub open spec fn cleared(self) -> CacheState {
        CacheState {
            entries: Map::empty(),
            order: Seq::empty(),
            occurrences: Map::empty(),
            ..self
        }
    }
}

} // verus!

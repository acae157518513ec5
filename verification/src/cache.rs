//! In-process response cache: least recently used, with a time to live and a warm-up threshold.

use std::collections::{HashMap, VecDeque};

use vstd::prelude::*;
use vstd::std_specs::iter::IteratorSpec;

use crate::cache_model::{elapsed, without, CacheState, Sighting, StoredResponse};
use crate::cache_laws::{
    law_get_keeps_valid, law_put_keeps_valid, law_record_keeps_valid, lemma_evicted, lemma_size,
};
use crate::canonical::{hash_value, response_fingerprint};
use crate::clock::{duration_nanos, Clock};
use crate::json::{opt_owned_json, JsonValue};
use crate::key::CacheKey;

verus! {

broadcast use vstd::std_specs::hash::group_hash_axioms;

/// Nanoseconds in a second.
pub const NANOS_PER_SEC: u128 = 1_000_000_000;

/// A cached response.
struct CacheEntry {
    response: JsonValue,
    stored_at: u128,
}

/// What the warm-up has seen of a key.
#[derive(Clone, Copy)]
struct Occurrence {
    count: u32,
    first_seen: u128,
    response_hash: u64,
    warmed_up: bool,
}

/// A snapshot of the cache's figures.
#[derive(Clone, Copy, Debug)]
pub struct CacheStats {
    pub hits: u64,
    pub misses: u64,
    pub stores: u64,
    pub evictions: u64,
    pub expirations: u64,
    pub oversize_skips: u64,
    pub current_size: usize,
    pub max_size: usize,
    pub ttl_secs: u64,
    /// Keys that the warm-up still watches.
    pub warming_keys: usize,
    /// The warm-up threshold; 0 where there is no warm-up.
    pub min_hit_count: u32,
}

/// The response cache.
pub struct ResponseCache {
    entries: HashMap<CacheKey, CacheEntry>,
    order: VecDeque<CacheKey>,
    occurrences: HashMap<CacheKey, Occurrence>,
    hits: u64,
    misses: u64,
    stores: u64,
    evictions: u64,
    expirations: u64,
    oversize_skips: u64,
    ttl_secs: u64,
    max_entries: usize,
    max_request_bytes: usize,
    min_hit_count: u32,
    warmup_window: u128,
    clock: Clock,
}

impl CacheEntry {
    spec fn model(self) -> StoredResponse {
        StoredResponse { response: self.response@, stored_at: self.stored_at as int }
    }
}

impl Occurrence {
    spec fn model(self) -> Sighting {
        Sighting {
            count: self.count as int,
            first_seen: self.first_seen as int,
            response_hash: self.response_hash,
            warmed_up: self.warmed_up,
        }
    }
}

impl View for ResponseCache {
    type V = CacheState;

    closed spec fn view(&self) -> CacheState {
        CacheState {
            entries: self.entries@.map_values(|e: CacheEntry| e.model()),
            order: self.order@,
            occurrences: self.occurrences@.map_values(|o: Occurrence| o.model()),
            hits: self.hits as int,
            misses: self.misses as int,
            stores: self.stores as int,
            evictions: self.evictions as int,
            expirations: self.expirations as int,
            oversize_skips: self.oversize_skips as int,
            ttl: self.ttl_secs * NANOS_PER_SEC,
            max_entries: self.max_entries as int,
            max_request_bytes: self.max_request_bytes as int,
            min_hit_count: self.min_hit_count as int,
            warmup_window: self.warmup_window as int,
        }
    }
}

/// The time that has passed at `now` since `since`.
fn time_since(since: u128, now: u128) -> (r: u128)
    ensures
        r == elapsed(since as int, now as int),
{
    if now > since {
        now - since
    } else {
        0
    }
}

/// Takes `key` out of `order`.
fn drop_key(order: &mut VecDeque<CacheKey>, key: CacheKey)
    ensures
        final(order)@ == without(old(order)@, key),
{
    let ghost all = order@;
    let ghost mut seen: int = 0;
    let mut i: usize = 0;
    assert(without(all.take(0), key) =~= Seq::empty()) by {
        reveal(Seq::filter);
    }
    while i < order.len()
        invariant
            i <= order.len(),
            0 <= seen <= all.len(),
            order@.take(i as int) =~= without(all.take(seen), key),
            order@.skip(i as int) =~= all.skip(seen),
        decreases order.len() - i,
    {
        let ghost before = order@;
        proof {
            assert(before.skip(i as int).len() == all.skip(seen).len());
            assert(before.skip(i as int)[0] == all.skip(seen)[0]);
            assert(all.take(seen + 1).drop_last() =~= all.take(seen));
            reveal(Seq::filter);
            assert(before.skip(i + 1) =~= before.skip(i as int).skip(1));
            assert(all.skip(seen + 1) =~= all.skip(seen).skip(1));
        }
        if order[i] == key {
            order.remove(i);
            proof {
                assert(order@.take(i as int) =~= before.take(i as int));
                assert(order@.skip(i as int) =~= before.skip(i + 1));
            }
        } else {
            i = i + 1;
            assert(order@.take(i as int) =~= before.take(i - 1).push(before[i - 1]));
        }
        proof {
            seen = seen + 1;
        }
    }
    assert(all.skip(seen).len() == 0);
    assert(all.take(seen) =~= all);
    assert(order@.take(i as int) =~= order@);
}

/// The counter after one more event.
fn count_one(counter: u64) -> (r: u64)
    requires
        counter < u64::MAX,
    ensures
        r == counter + 1,
{
    counter + 1
}

/// One more key is taken, and it was not among those taken before.
proof fn lemma_taken(keys: Seq<CacheKey>, i: int)
    requires
        0 <= i < keys.len(),
    ensures
        forall|k: CacheKey| #[trigger]
            keys.take(i + 1).contains(k) <==> keys.take(i).contains(k) || k == keys[i],
        keys.no_duplicates() ==> !keys.take(i).contains(keys[i]),
{
    let some = keys.take(i);
    let more = keys.take(i + 1);
    assert forall|k: CacheKey| #[trigger]
        more.contains(k) <==> some.contains(k) || k == keys[i] by {
        if more.contains(k) {
            let j = choose|j: int| 0 <= j < more.len() && more[j] == k;
            if j < i {
                assert(some[j] == k);
            }
        }
        if some.contains(k) {
            let j = choose|j: int| 0 <= j < some.len() && some[j] == k;
            assert(more[j] == k);
        }
        assert(more[i] == keys[i]);
    }
}

/// When the `gone` keys that were used longest ago have left, the next one is still there.
proof fn lemma_next_to_go(state: CacheState, gone: int)
    requires
        state.valid(),
        0 <= gone < state.order.len(),
    ensures
        state.entries.remove_keys(state.order.take(gone).to_set()).contains_key(state.order[gone]),
        state.order.take(gone + 1).to_set() == state.order.take(gone).to_set().insert(
            state.order[gone],
        ),
{
    let left = state.order.take(gone);
    let oldest = state.order[gone];
    assert(state.order.contains(oldest));
    assert(state.order.to_set().contains(oldest));
    if left.contains(oldest) {
        let i = choose|i: int| 0 <= i < left.len() && left[i] == oldest;
        assert(state.order[i] == oldest);
    }
    let more = state.order.take(gone + 1);
    assert forall|k: CacheKey| #[trigger]
        more.to_set().contains(k) <==> left.to_set().insert(oldest).contains(k) by {
        if more.contains(k) {
            let i = choose|i: int| 0 <= i < more.len() && more[i] == k;
            if i < gone {
                assert(left[i] == k);
            }
        }
        if left.contains(k) {
            let i = choose|i: int| 0 <= i < left.len() && left[i] == k;
            assert(more[i] == k);
        }
        assert(more[gone] == oldest);
    }
    assert(more.to_set() =~= left.to_set().insert(oldest));
}

impl ResponseCache {
    /// A cache that holds nothing. There is no warm-up: a response can be served as soon as it
    /// has been stored.
    pub fn new(ttl_secs: u64, max_entries: usize, max_request_bytes: usize) -> (r: ResponseCache)
        ensures
            r@ == CacheState::empty(
                ttl_secs * NANOS_PER_SEC,
                max_entries as int,
                max_request_bytes as int,
            ),
            r@.valid(),
    {
        let r = ResponseCache {
            entries: HashMap::new(),
            order: VecDeque::new(),
            occurrences: HashMap::new(),
            hits: 0,
            misses: 0,
            stores: 0,
            evictions: 0,
            expirations: 0,
            oversize_skips: 0,
            ttl_secs,
            max_entries,
            max_request_bytes,
            min_hit_count: 0,
            warmup_window: 0,
            clock: Clock::start(),
        };
        proof {
            assert(r@.entries =~= Map::empty());
            assert(r@.occurrences =~= Map::empty());
            assert(r@.order =~= Seq::empty());
            assert(r@.order.to_set() =~= r@.entries.dom());
        }
        r
    }

    /// Sets the warm-up: only when the same response has come back `min_hit_count` times within
    /// `window` may it be served from the cache.
    pub fn with_warmup(self, min_hit_count: u32, window: std::time::Duration) -> (r: ResponseCache)
        ensures
            r@ == (CacheState {
                min_hit_count: min_hit_count as int,
                warmup_window: duration_nanos(window) as int,
                ..self@
            }),
            self@.valid() ==> r@.valid(),
            r.time_keeper() == self.time_keeper(),
    {
        self.with_warmup_nanos(min_hit_count, window.as_nanos())
    }

    /// As [`ResponseCache::with_warmup`], with the window in nanoseconds.
    pub fn with_warmup_nanos(self, min_hit_count: u32, window: u128) -> (r: ResponseCache)
        ensures
            r@ == (CacheState {
                min_hit_count: min_hit_count as int,
                warmup_window: window as int,
                ..self@
            }),
            self@.valid() ==> r@.valid(),
            r.time_keeper() == self.time_keeper(),
    {
        let mut cache = self;
        cache.min_hit_count = min_hit_count;
        cache.warmup_window = window;
        cache
    }

    /// The clock that the cache goes by.
    pub closed spec fn time_keeper(self) -> Clock {
        self.clock
    }

    /// What the cache's clock shows now, in nanoseconds. Which point in time now is, is not known.
    pub fn now(&self) -> (r: u128)
        ensures
            exists|at: std::time::Instant| r == #[trigger] self.time_keeper().shown_at(at),
    {
        assert(self.time_keeper() == self.clock);
        self.clock.now()
    }

    /// Whether the counters are far enough from their limit for any one operation.
    pub fn can_count(&self) -> (r: bool)
        requires
            self@.valid(),
        ensures
            r == self@.can_count(),
    {
        self.hits < u64::MAX && self.misses < u64::MAX && self.stores < u64::MAX && u64::MAX
            - self.evictions >= self.order.len() as u64 && self.expirations < u64::MAX
            && self.oversize_skips < u64::MAX
    }

    /// Whether there is a response under `key` that can be served.
    fn has_live(&self, key: CacheKey, now: u128) -> (r: bool)
        ensures
            r == self@.is_live(key, now as int),
    {
        match self.entries.get(&key) {
            Some(entry) => time_since(entry.stored_at, now) <= self.ttl_secs as u128
                * NANOS_PER_SEC,
            None => false,
        }
    }

    /// Whether responses under `key` may be served at the time `now`.
    pub fn is_warmed_up_at(&self, key: CacheKey, now: u128) -> (r: bool)
        ensures
            r == self@.warmed_up(key, now as int),
    {
        if self.min_hit_count == 0 {
            return true;
        }
        if self.has_live(key, now) {
            return true;
        }
        match self.occurrences.get(&key) {
            Some(seen) => seen.warmed_up && time_since(seen.first_seen, now)
                <= self.warmup_window,
            None => false,
        }
    }

    /// Whether responses under `key` may be served now.
    pub fn is_warmed_up(&self, key: CacheKey) -> (r: bool)
        ensures
            exists|at: std::time::Instant|
                r == self@.warmed_up(key, #[trigger] self.time_keeper().shown_at(at) as int),
            self@.min_hit_count == 0 ==> r,
    {
        let now = self.now();
        self.is_warmed_up_at(key, now)
    }

    /// Drops the response under `key`, which has expired.
    fn expire(&mut self, key: CacheKey)
        requires
            old(self).expirations < u64::MAX,
        ensures
            final(self)@ == old(self)@.expired(key),
            final(self).time_keeper() == old(self).time_keeper(),
    {
        let ghost before = *self;
        self.entries.remove(&key);
        drop_key(&mut self.order, key);
        self.expirations = count_one(self.expirations);
        assert(self@.entries =~= before@.entries.remove(key));
    }

    /// Looks `key` up at the time `now`.
    pub fn get_at(&mut self, key: CacheKey, now: u128) -> (r: Option<JsonValue>)
        requires
            old(self)@.valid(),
            old(self)@.after_get(key, now as int).counters_fit(),
        ensures
            opt_owned_json(r) == old(self)@.found(key, now as int),
            final(self)@ == old(self)@.after_get(key, now as int),
            final(self)@.valid(),
            final(self).time_keeper() == old(self).time_keeper(),
    {
        proof {
            law_get_keeps_valid(self@, key, now as int);
        }
        let live = self.has_live(key, now);
        let found: Option<JsonValue> = match self.entries.get(&key) {
            Some(entry) => Some(entry.response.clone()),
            None => None,
        };
        match found {
            Some(response) => {
                if live {
                    drop_key(&mut self.order, key);
                    self.order.push_back(key);
                    self.hits = count_one(self.hits);
                    Some(response)
                } else {
                    self.expire(key);
                    self.misses = count_one(self.misses);
                    None
                }
            },
            None => {
                self.misses = count_one(self.misses);
                None
            },
        }
    }

    /// Looks `key` up.
    pub fn get(&mut self, key: CacheKey) -> (r: Option<JsonValue>)
        requires
            old(self)@.valid(),
            forall|now: u128| (#[trigger] old(self)@.after_get(key, now as int)).counters_fit(),
        ensures
            exists|at: std::time::Instant|
                ({
                    let now = #[trigger] old(self).time_keeper().shown_at(at) as int;
                    &&& opt_owned_json(r) == old(self)@.found(key, now)
                    &&& final(self)@ == old(self)@.after_get(key, now)
                }),
            final(self)@.valid(),
            final(self).time_keeper() == old(self).time_keeper(),
    {
        let now = self.now();
        self.get_at(key, now)
    }

    /// Makes the responses that were used longest ago leave until there is room for one more.
    fn make_room(&mut self)
        requires
            old(self)@.valid(),
            old(self)@.max_entries > 0,
            old(self)@.evicted().counters_fit(),
        ensures
            final(self)@ == old(self)@.evicted(),
            final(self).time_keeper() == old(self).time_keeper(),
    {
        let ghost before = self@;
        let ghost mut gone: int = 0;
        proof {
            lemma_evicted(before);
            lemma_size(before);
        }
        assert(before.order.skip(0) =~= before.order);
        assert(before.entries.remove_keys(before.order.take(0).to_set()) =~= before.entries);
        assert(self.entries@.dom() =~= before.entries.dom());
        while self.entries.len() >= self.max_entries
            invariant
                before.valid(),
                before.max_entries > 0,
                before.evicted().counters_fit(),
                0 <= gone <= before.overflow() <= before.order.len(),
                self@.entries == before.entries.remove_keys(before.order.take(gone).to_set()),
                self@ == (CacheState {
                    entries: self@.entries,
                    order: before.order.skip(gone),
                    evictions: before.evictions + gone,
                    ..before
                }),
                self.entries@.dom().len() == before.order.len() - gone,
                self.time_keeper() == old(self).time_keeper(),
            ensures
                gone == before.overflow(),
                self@ == before.evicted(),
            decreases before.order.len() - gone,
        {
            match self.order.pop_front() {
                Some(oldest) => {
                    let ghost kept = self.entries@;
                    let ghost kept_model = self@.entries;
                    proof {
                        assert(oldest == before.order[gone]);
                        lemma_next_to_go(before, gone);
                        assert(kept.dom() =~= self@.entries.dom());
                    }
                    self.entries.remove(&oldest);
                    self.evictions = self.evictions + 1;
                    proof {
                        assert(self@.entries =~= kept_model.remove(oldest));
                        assert(self@.entries =~= before.entries.remove_keys(
                            before.order.take(gone).to_set().insert(oldest),
                        ));
                        assert(self.entries@.dom() =~= kept.dom().remove(oldest));
                        gone = gone + 1;
                    }
                },
                None => {
                    break;
                },
            }
        }
    }

    /// Stores `response` under `key` at the time `now`.
    fn store(&mut self, key: CacheKey, response: JsonValue, now: u128)
        ensures
            final(self)@ == old(self)@.stored(key, response@, now as int),
            final(self).time_keeper() == old(self).time_keeper(),
    {
        let ghost before = *self;
        drop_key(&mut self.order, key);
        let entry = CacheEntry { response, stored_at: now };
        self.entries.insert(key, entry);
        self.order.push_back(key);
        assert(self@.entries =~= before@.entries.insert(key, entry.model()));
    }

    /// Hands in the response to a request of `request_bytes` bytes at the time `now`.
    pub fn put_at(&mut self, key: CacheKey, response: JsonValue, request_bytes: usize, now: u128)
        requires
            old(self)@.valid(),
            old(self)@.after_put(key, response@, request_bytes as int, now as int).counters_fit(),
        ensures
            final(self)@ == old(self)@.after_put(
                key,
                response@,
                request_bytes as int,
                now as int,
            ),
            final(self)@.valid(),
            final(self).time_keeper() == old(self).time_keeper(),
    {
        proof {
            law_put_keeps_valid(self@, key, response@, request_bytes as int, now as int);
        }
        if request_bytes > self.max_request_bytes {
            self.oversize_skips = count_one(self.oversize_skips);
            return;
        }
        if self.max_entries == 0 {
            return;
        }
        if self.entries.contains_key(&key) {
            self.store(key, response, now);
            return;
        }
        self.make_room();
        self.store(key, response, now);
        self.stores = count_one(self.stores);
    }

    /// Hands in the response to a request of `request_bytes` bytes.
    pub fn put(&mut self, key: CacheKey, response: JsonValue, request_bytes: usize)
        requires
            old(self)@.valid(),
            forall|now: u128|
                (#[trigger] old(self)@.after_put(
                    key,
                    response@,
                    request_bytes as int,
                    now as int,
                )).counters_fit(),
        ensures
            exists|at: std::time::Instant|
                final(self)@ == old(self)@.after_put(
                    key,
                    response@,
                    request_bytes as int,
                    #[trigger] old(self).time_keeper().shown_at(at) as int,
                ),
            final(self)@.valid(),
            final(self).time_keeper() == old(self).time_keeper(),
    {
        let now = self.now();
        self.put_at(key, response, request_bytes, now);
    }

    /// Drops the sightings of `key`, if its window is over.
    fn forget(&mut self, key: CacheKey, now: u128)
        ensures
            final(self)@ == old(self)@.forgotten(key, now as int),
            final(self).time_keeper() == old(self).time_keeper(),
    {
        let ghost before = *self;
        let over: bool = match self.occurrences.get(&key) {
            Some(seen) => time_since(seen.first_seen, now) > self.warmup_window,
            None => false,
        };
        if over {
            self.occurrences.remove(&key);
            assert(self@.occurrences =~= before@.occurrences.remove(key));
        }
    }

    /// Whether the table of sightings is full.
    fn table_is_full(&self) -> (r: bool)
        ensures
            r == self@.table_full(),
    {
        assert(self@.occurrences.dom() =~= self.occurrences@.dom());
        self.occurrences.len() / 2 >= self.max_entries
    }

    /// The keys that have sightings, each once.
    fn seen_keys(&self) -> (r: Vec<CacheKey>)
        ensures
            r@.no_duplicates(),
            r@.to_set() == self.occurrences@.dom(),
    {
        let mut keys: Vec<CacheKey> = Vec::new();
        let ghost all = vstd::std_specs::hash::spec_keys_iter(&self.occurrences).remaining();
        for key in iter: self.occurrences.keys()
            invariant
                iter.seq() == all,
                keys.len() == iter.index(),
                forall|j: int| 0 <= j < keys.len() ==> keys@[j] == *all[j],
        {
            keys.push(*key);
        }
        assert(keys@ =~= all.unref());
        keys
    }

    /// Clears a full table of sightings whose window is over.
    fn purge(&mut self, now: u128)
        ensures
            final(self)@ == old(self)@.purged(now as int),
            final(self).time_keeper() == old(self).time_keeper(),
    {
        if self.table_is_full() {
            let ghost before = *self;
            let keys = self.seen_keys();
            let mut i: usize = 0;
            while i < keys.len()
                invariant
                    i <= keys.len(),
                    keys@.to_set() == before.occurrences@.dom(),
                    self@ == (CacheState { occurrences: self@.occurrences, ..before@ }),
                    self.time_keeper() == before.time_keeper(),
                    forall|k: CacheKey| #[trigger]
                        self@.occurrences.contains_key(k) <==> before@.occurrences.contains_key(k)
                            && !(keys@.take(i as int).contains(k) && before@.window_over(
                            k,
                            now as int,
                        )),
                    forall|k: CacheKey| #[trigger]
                        self@.occurrences.contains_key(k) ==> self@.occurrences[k]
                            == before@.occurrences[k],
                decreases keys.len() - i,
            {
                proof {
                    lemma_taken(keys@, i as int);
                }
                self.forget(keys[i], now);
                i = i + 1;
            }
            proof {
                assert(keys@.take(i as int) =~= keys@);
                assert forall|k: CacheKey| #[trigger] keys@.contains(k)
                    <==> before@.occurrences.contains_key(k) by {
                    assert(keys@.to_set().contains(k) <==> before.occurrences@.dom().contains(k));
                }
            }
            assert(self@.occurrences =~= before@.purged(now as int).occurrences);
        }
    }

    /// Counts a response with fingerprint `hash` from upstream at the time `now`. Whether the key
    /// has reached the threshold, so that the response may be stored.
    pub fn record_fingerprint_at(&mut self, key: CacheKey, hash: u64, now: u128) -> (r: bool)
        requires
            old(self)@.valid(),
            old(self)@.after_record(key, hash, now as int).counters_fit(),
        ensures
            r == old(self)@.reaches(key, hash, now as int),
            final(self)@ == old(self)@.after_record(key, hash, now as int),
            final(self)@.valid(),
            final(self).time_keeper() == old(self).time_keeper(),
    {
        let ghost before = self@;
        proof {
            law_record_keeps_valid(before, key, hash, now as int);
        }
        if self.min_hit_count == 0 {
            return true;
        }
        if self.has_live(key, now) {
            return true;
        }
        if self.entries.contains_key(&key) {
            self.expire(key);
        }
        assert(self@ == before.refreshed(key, now as int));
        self.forget(key, now);
        self.purge(now);
        let ghost ready = self@;
        assert(ready == before.before_count(key, now as int));
        if !self.occurrences.contains_key(&key) && self.table_is_full() {
            return false;
        }
        let seen: Occurrence = match self.occurrences.get(&key) {
            Some(seen) => *seen,
            None => Occurrence { count: 0, first_seen: now, response_hash: 0, warmed_up: false },
        };
        assert(seen.model() == ready.sighting(key, now as int));
        if seen.warmed_up {
            assert(ready.occurrences.insert(key, seen.model()) =~= ready.occurrences);
            return true;
        }
        let next: Occurrence = if seen.count == 0 || seen.response_hash == hash {
            Occurrence {
                count: seen.count + 1,
                first_seen: seen.first_seen,
                response_hash: hash,
                warmed_up: seen.count + 1 >= self.min_hit_count,
            }
        } else {
            Occurrence {
                count: 1,
                first_seen: now,
                response_hash: hash,
                warmed_up: 1 >= self.min_hit_count,
            }
        };
        self.occurrences.insert(key, next);
        assert(self@.occurrences =~= ready.occurrences.insert(key, next.model()));
        next.warmed_up
    }

    /// Counts a response from upstream at the time `now`. Whether the key has reached the
    /// threshold, so that the response may be stored.
    pub fn record_occurrence_at(
        &mut self,
        key: CacheKey,
        response: &JsonValue,
        now: u128,
    ) -> (r: bool)
        requires
            old(self)@.valid(),
            old(self)@.after_record(
                key,
                response_fingerprint(response@),
                now as int,
            ).counters_fit(),
        ensures
            r == old(self)@.reaches(key, response_fingerprint(response@), now as int),
            final(self)@ == old(self)@.after_record(
                key,
                response_fingerprint(response@),
                now as int,
            ),
            final(self)@.valid(),
            final(self).time_keeper() == old(self).time_keeper(),
    {
        if self.min_hit_count == 0 {
            return true;
        }
        let hash = hash_value(response);
        self.record_fingerprint_at(key, hash, now)
    }

    /// Counts a response from upstream. Whether the key has reached the threshold, so that the
    /// response may be stored.
    pub fn record_occurrence(&mut self, key: CacheKey, response: &JsonValue) -> (r: bool)
        requires
            old(self)@.valid(),
            forall|now: u128|
                (#[trigger] old(self)@.after_record(
                    key,
                    response_fingerprint(response@),
                    now as int,
                )).counters_fit(),
        ensures
            exists|at: std::time::Instant|
                ({
                    let now = #[trigger] old(self).time_keeper().shown_at(at) as int;
                    let hash = response_fingerprint(response@);
                    &&& r == old(self)@.reaches(key, hash, now)
                    &&& final(self)@ == old(self)@.after_record(key, hash, now)
                }),
            final(self)@.valid(),
            final(self).time_keeper() == old(self).time_keeper(),
            old(self)@.min_hit_count == 0 ==> r,
    {
        let now = self.now();
        self.record_occurrence_at(key, response, now)
    }

    /// A snapshot of the cache's figures.
    pub fn stats(&self) -> (r: CacheStats)
        ensures
            r.hits == self@.hits,
            r.misses == self@.misses,
            r.stores == self@.stores,
            r.evictions == self@.evictions,
            r.expirations == self@.expirations,
            r.oversize_skips == self@.oversize_skips,
            r.current_size == self@.entries.dom().len(),
            r.max_size == self@.max_entries,
            r.ttl_secs * NANOS_PER_SEC == self@.ttl,
            r.warming_keys == if self@.min_hit_count == 0 {
                0
            } else {
                self@.warming().len()
            },
            r.min_hit_count == self@.min_hit_count,
    {
        let warming_keys: usize = if self.min_hit_count == 0 {
            0
        } else {
            self.count_warming()
        };
        assert(self@.entries.dom() =~= self.entries@.dom());
        CacheStats {
            hits: self.hits,
            misses: self.misses,
            stores: self.stores,
            evictions: self.evictions,
            expirations: self.expirations,
            oversize_skips: self.oversize_skips,
            current_size: self.entries.len(),
            max_size: self.max_entries,
            ttl_secs: self.ttl_secs,
            warming_keys,
            min_hit_count: self.min_hit_count,
        }
    }

    /// How many keys the warm-up still watches.
    fn count_warming(&self) -> (r: usize)
        ensures
            r == self@.warming().len(),
    {
        let keys = self.seen_keys();
        let mut n: usize = 0;
        let mut i: usize = 0;
        let ghost mut counted: Set<CacheKey> = Set::empty();
        while i < keys.len()
            invariant
                i <= keys.len(),
                n <= i,
                keys@.no_duplicates(),
                keys@.to_set() == self.occurrences@.dom(),
                counted.finite(),
                counted.len() == n,
                forall|k: CacheKey| #[trigger]
                    counted.contains(k) <==> keys@.take(i as int).contains(k)
                        && !self@.occurrences[k].warmed_up,
            decreases keys.len() - i,
        {
            let key = keys[i];
            proof {
                lemma_taken(keys@, i as int);
                assert(keys@.contains(key));
                assert(keys@.to_set().contains(key));
            }
            match self.occurrences.get(&key) {
                Some(seen) => {
                    if !seen.warmed_up {
                        n = n + 1;
                        proof {
                            counted = counted.insert(key);
                        }
                    }
                },
                None => {},
            }
            i = i + 1;
        }
        proof {
            assert(keys@.take(i as int) =~= keys@);
            assert forall|k: CacheKey| #[trigger]
                counted.contains(k) <==> self@.warming().contains(k) by {
                assert(keys@.to_set().contains(k) <==> self.occurrences@.dom().contains(k));
            }
            assert(counted =~= self@.warming());
        }
        n
    }

    /// Drops everything. The counters stay.
    pub fn clear(&mut self)
        ensures
            final(self)@ == old(self)@.cleared(),
            final(self).time_keeper() == old(self).time_keeper(),
            old(self)@.valid() ==> final(self)@.valid(),
    {
        self.entries.clear();
        self.order.clear();
        self.occurrences.clear();
        proof {
            assert(self@.entries =~= Map::empty());
            assert(self@.occurrences =~= Map::empty());
            assert(self@.order =~= Seq::empty());
            assert(self@.order.to_set() =~= self@.entries.dom());
        }
    }
}

} // verus!

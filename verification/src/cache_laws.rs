//! Laws of the response cache.

use vstd::prelude::*;

use crate::cache_model::{elapsed, without, CacheState, Sighting, StoredResponse};
use crate::json::Json;
use crate::key::CacheKey;

verus! {

/// Taking a key out of a sequence leaves the other elements, in their order.
pub proof fn lemma_without(order: Seq<CacheKey>, key: CacheKey)
    ensures
        forall|k: CacheKey| #[trigger]
            without(order, key).contains(k) <==> order.contains(k) && k != key,
        order.no_duplicates() ==> without(order, key).no_duplicates(),
        !order.contains(key) ==> without(order, key) == order,
        without(order, key).len() <= order.len(),
        order.no_duplicates() && order.contains(key) ==> without(order, key).len() == order.len()
            - 1,
    decreases order.len(),
{
    reveal(Seq::filter);
    if order.len() > 0 {
        let rest = order.drop_last();
        lemma_without(rest, key);
        assert(order =~= rest.push(order.last()));
        let kept = without(rest, key);
        assert forall|k: CacheKey| #[trigger]
            without(order, key).contains(k) <==> order.contains(k) && k != key by {
            if order.contains(k) && k != key {
                let i = choose|i: int| 0 <= i < order.len() && order[i] == k;
                if i < rest.len() {
                    assert(rest[i] == k);
                    assert(kept.contains(k));
                    let j = choose|j: int| 0 <= j < kept.len() && kept[j] == k;
                    assert(without(order, key)[j] == k);
                } else {
                    assert(without(order, key)[kept.len() as int] == k);
                }
            }
            if without(order, key).contains(k) {
                let j = choose|j: int|
                    0 <= j < without(order, key).len() && without(order, key)[j] == k;
                if j < kept.len() {
                    assert(kept[j] == k);
                    assert(kept.contains(k));
                    let i = choose|i: int| 0 <= i < rest.len() && rest[i] == k;
                    assert(order[i] == k);
                } else {
                    assert(order[order.len() - 1] == k);
                }
            }
        }
        if order.no_duplicates() {
            assert(rest.no_duplicates());
            assert(!rest.contains(order.last()));
            assert(!kept.contains(order.last()));
        }
        if !order.contains(key) {
            assert forall|i: int| 0 <= i < rest.len() implies rest[i] != key by {
                assert(order[i] == rest[i]);
            }
            assert(order[order.len() - 1] != key);
            assert(without(order, key) =~= order);
        }
        if order.no_duplicates() && order.contains(key) {
            if order.last() == key {
                assert(!rest.contains(key));
            } else {
                let i = choose|i: int| 0 <= i < order.len() && order[i] == key;
                assert(rest[i] == key);
            }
        }
    }
}

/// The keys in use are as many as the responses.
pub proof fn lemma_size(state: CacheState)
    requires
        state.valid(),
    ensures
        state.entries.dom().finite(),
        state.entries.dom().len() == state.order.len(),
{
    state.order.unique_seq_to_set();
}

/// A lookup keeps the cache valid.
pub proof fn law_get_keeps_valid(state: CacheState, key: CacheKey, now: int)
    requires
        state.valid(),
    ensures
        state.after_get(key, now).valid(),
{
    let next = state.after_get(key, now);
    lemma_without(state.order, key);
    assert(state.order.contains(key) <==> state.entries.contains_key(key)) by {
        assert(state.order.to_set().contains(key) <==> state.entries.dom().contains(key));
    }
    assert(next.order.to_set() =~= next.entries.dom()) by {
        assert forall|k: CacheKey| #[trigger]
            next.order.to_set().contains(k) <==> next.entries.dom().contains(k) by {
            lemma_member(state, k);
            lemma_pushed(without(state.order, key), key, k);
        }
    }
}

pub proof fn lemma_member(state: CacheState, k: CacheKey)
    requires
        state.valid(),
    ensures
        state.order.contains(k) <==> state.entries.contains_key(k),
{
    assert(state.order.to_set().contains(k) <==> state.entries.dom().contains(k));
}

proof fn lemma_pushed(order: Seq<CacheKey>, key: CacheKey, k: CacheKey)
    ensures
        order.push(key).contains(k) <==> order.contains(k) || k == key,
{
    if order.contains(k) {
        let i = choose|i: int| 0 <= i < order.len() && order[i] == k;
        assert(order.push(key)[i] == k);
    }
    if k == key {
        assert(order.push(key)[order.len() as int] == k);
    }
    if order.push(key).contains(k) {
        let i = choose|i: int| 0 <= i < order.push(key).len() && order.push(key)[i] == k;
        if i < order.len() {
            assert(order[i] == k);
        }
    }
}

/// Making room keeps the cache valid and leaves room for one more response.
pub proof fn lemma_evicted(state: CacheState)
    requires
        state.valid(),
        state.max_entries > 0,
    ensures
        state.evicted().valid(),
        0 <= state.overflow() <= state.order.len(),
        state.evicted().order.len() < state.max_entries,
{
    let n = state.overflow();
    let next = state.evicted();
    assert(next.order.no_duplicates());
    assert forall|k: CacheKey| #[trigger]
        next.order.to_set().contains(k) <==> next.entries.dom().contains(k) by {
        lemma_member(state, k);
        let left = state.order.take(n);
        if next.order.contains(k) {
            let i = choose|i: int| 0 <= i < next.order.len() && next.order[i] == k;
            assert(state.order[i + n] == k);
            if left.contains(k) {
                let j = choose|j: int| 0 <= j < left.len() && left[j] == k;
                assert(state.order[j] == k);
            }
        }
        if next.entries.dom().contains(k) {
            let i = choose|i: int| 0 <= i < state.order.len() && state.order[i] == k;
            if i < n {
                assert(left[i] == k);
            } else {
                assert(next.order[i - n] == k);
            }
        }
    }
    assert(next.order.to_set() =~= next.entries.dom());
}

/// Storing a response keeps the cache valid.
pub proof fn law_put_keeps_valid(
    state: CacheState,
    key: CacheKey,
    response: Json,
    request_bytes: int,
    now: int,
)
    requires
        state.valid(),
    ensures
        state.after_put(key, response, request_bytes, now).valid(),
{
    let next = state.after_put(key, response, request_bytes, now);
    lemma_member(state, key);
    if request_bytes <= state.max_request_bytes && state.max_entries > 0 {
        lemma_evicted(state);
        let base = if state.entries.contains_key(key) {
            state
        } else {
            state.evicted()
        };
        lemma_member(base, key);
        lemma_without(base.order, key);
        assert forall|k: CacheKey| #[trigger]
            next.order.to_set().contains(k) <==> next.entries.dom().contains(k) by {
            lemma_member(base, k);
            lemma_pushed(without(base.order, key), key, k);
        }
        assert(next.order.to_set() =~= next.entries.dom());
    }
}

/// Counting a response keeps the cache valid.
pub proof fn law_record_keeps_valid(state: CacheState, key: CacheKey, hash: u64, now: int)
    requires
        state.valid(),
    ensures
        state.before_count(key, now).valid(),
        state.after_record(key, hash, now).valid(),
{
    lemma_without(state.order, key);
    let r = state.refreshed(key, now);
    assert forall|k: CacheKey| #[trigger]
        r.order.to_set().contains(k) <==> r.entries.dom().contains(k) by {
        lemma_member(state, k);
    }
    assert(r.order.to_set() =~= r.entries.dom());
    let f = r.forgotten(key, now);
    let p = f.purged(now);
    assert(p.occurrences.dom().subset_of(f.occurrences.dom()));
    vstd::set_lib::lemma_set_subset_finite(f.occurrences.dom(), p.occurrences.dom());
    vstd::set_lib::lemma_len_subset(p.occurrences.dom(), f.occurrences.dom());
    assert(p.valid());
    if p.occurrences.contains_key(key) {
        assert(p.occurrences.dom().insert(key) =~= p.occurrences.dom());
    }
}

/// Where the counters are far enough from their limit, no operation exceeds it.
pub proof fn law_counters_fit(
    state: CacheState,
    key: CacheKey,
    hash: u64,
    response: Json,
    request_bytes: int,
    now: int,
)
    requires
        state.valid(),
        state.can_count(),
    ensures
        state.after_get(key, now).counters_fit(),
        state.after_record(key, hash, now).counters_fit(),
        state.after_put(key, response, request_bytes, now).counters_fit(),
        state.after_record(key, hash, now).after_put(
            key,
            response,
            request_bytes,
            now,
        ).counters_fit(),
{
    law_record_keeps_valid(state, key, hash, now);
    if state.max_entries > 0 {
        lemma_evicted(state);
        lemma_evicted(state.after_record(key, hash, now));
    }
    lemma_without(state.order, key);
}

/// A response that was stored is what a lookup finds until its time to live is over.
pub proof fn law_get_after_put(
    state: CacheState,
    key: CacheKey,
    response: Json,
    request_bytes: int,
    stored_at: int,
    now: int,
)
    requires
        state.max_entries > 0,
        request_bytes <= state.max_request_bytes,
        elapsed(stored_at, now) <= state.ttl,
    ensures
        state.after_put(key, response, request_bytes, stored_at).found(key, now) == Some(response),
{
}

/// Once its time to live is over, a response is not found, and the lookup drops it.
pub proof fn law_expired_is_dropped(state: CacheState, key: CacheKey, now: int)
    requires
        state.entries.contains_key(key),
        elapsed(state.entries[key].stored_at, now) > state.ttl,
    ensures
        state.found(key, now) is None,
        state.after_get(key, now).entries == state.entries.remove(key),
        state.after_get(key, now).misses == state.misses + 1,
        state.after_get(key, now).expirations == state.expirations + 1,
        state.after_get(key, now).hits == state.hits,
{
}

/// A lookup changes nothing of what can be found under any key.
pub proof fn law_get_changes_no_answer(state: CacheState, key: CacheKey, other: CacheKey, now: int)
    ensures
        state.after_get(key, now).found(other, now) == state.found(other, now),
{
}

/// Every lookup is either a hit or a miss, and it is a hit exactly where something is found.
pub proof fn law_lookup_is_hit_or_miss(state: CacheState, key: CacheKey, now: int)
    ensures
        state.after_get(key, now).hits + state.after_get(key, now).misses == state.hits
            + state.misses + 1,
        state.found(key, now) is Some <==> state.after_get(key, now).hits == state.hits + 1,
{
}

/// The cache never holds more than `max_entries` responses, nor counts for more than twice as many
/// keys.
pub proof fn law_capacity(state: CacheState)
    requires
        state.valid(),
    ensures
        state.entries.dom().len() <= state.max_entries,
        state.occurrences.dom().len() <= state.max_entries * 2,
        state.warming().len() <= state.max_entries * 2,
{
    lemma_size(state);
    vstd::set_lib::lemma_len_subset(state.warming(), state.occurrences.dom());
}

/// The response to a request that is too large changes nothing but the count of such requests.
pub proof fn law_oversize_is_not_stored(
    state: CacheState,
    key: CacheKey,
    response: Json,
    request_bytes: int,
    now: int,
)
    requires
        request_bytes > state.max_request_bytes,
    ensures
        state.after_put(key, response, request_bytes, now) == (CacheState {
            oversize_skips: state.oversize_skips + 1,
            ..state
        }),
{
}

/// In a full cache a new key takes the place of the one that was used longest ago; every other
/// response stays.
pub proof fn law_full_cache_evicts_least_recent(
    state: CacheState,
    key: CacheKey,
    response: Json,
    request_bytes: int,
    now: int,
)
    requires
        state.valid(),
        state.max_entries > 0,
        state.order.len() == state.max_entries,
        !state.entries.contains_key(key),
        request_bytes <= state.max_request_bytes,
    ensures
        state.after_put(key, response, request_bytes, now).entries == state.entries.remove(
            state.order[0],
        ).insert(key, StoredResponse { response, stored_at: now }),
        state.after_put(key, response, request_bytes, now).order == state.order.skip(1).push(key),
        state.after_put(key, response, request_bytes, now).evictions == state.evictions + 1,
{
    let next = state.after_put(key, response, request_bytes, now);
    let left = state.order.take(1);
    assert(left[0] == state.order[0]);
    assert forall|k: CacheKey| left.to_set().contains(k) <==> k == state.order[0] by {
        if left.contains(k) {
            let i = choose|i: int| 0 <= i < left.len() && left[i] == k;
            assert(left[i] == state.order[0]);
        }
    }
    assert(state.evicted().entries =~= state.entries.remove(state.order[0]));
    lemma_evicted(state);
    lemma_member(state.evicted(), key);
    lemma_without(state.evicted().order, key);
}

/// While there is room, a new key makes nothing leave.
pub proof fn law_room_evicts_nothing(
    state: CacheState,
    key: CacheKey,
    response: Json,
    request_bytes: int,
    now: int,
)
    requires
        state.order.len() < state.max_entries,
        !state.entries.contains_key(key),
        request_bytes <= state.max_request_bytes,
    ensures
        state.after_put(key, response, request_bytes, now).entries == state.entries.insert(
            key,
            StoredResponse { response, stored_at: now },
        ),
        state.after_put(key, response, request_bytes, now).evictions == state.evictions,
{
    assert(state.order.take(0).to_set() =~= Set::empty());
    assert(state.evicted().entries =~= state.entries);
}

/// A key that was just looked up with success survives the next new key, in any cache that can
/// hold two responses.
pub proof fn law_hit_survives_next_put(
    state: CacheState,
    key: CacheKey,
    new_key: CacheKey,
    response: Json,
    request_bytes: int,
    looked_up: int,
    now: int,
)
    requires
        state.valid(),
        state.max_entries >= 2,
        state.is_live(key, looked_up),
        state.is_live(key, now),
        new_key != key,
    ensures
        state.after_get(key, looked_up).after_put(new_key, response, request_bytes, now).found(
            key,
            now,
        ) == state.found(key, now),
{
    let used = state.after_get(key, looked_up);
    law_get_keeps_valid(state, key, looked_up);
    let next = used.after_put(new_key, response, request_bytes, now);
    if request_bytes <= state.max_request_bytes && !used.entries.contains_key(new_key) {
        let n = used.overflow();
        let left = used.order.take(n);
        assert(used.order.last() == key);
        if left.contains(key) {
            let i = choose|i: int| 0 <= i < left.len() && left[i] == key;
            assert(used.order[i] == used.order[used.order.len() - 1]);
        }
        assert(used.evicted().entries.contains_key(key));
        assert(next.entries[key] == state.entries[key]);
    }
}

/// Without a warm-up every response may be stored at once, and counting changes nothing.
pub proof fn law_no_warmup(state: CacheState, key: CacheKey, hash: u64, now: int)
    requires
        state.min_hit_count == 0,
    ensures
        state.reaches(key, hash, now),
        state.warmed_up(key, now),
        state.after_record(key, hash, now) == state,
{
}

/// What can be found may be served: a response that is cached and has not expired needs no
/// further warm-up.
pub proof fn law_found_is_warmed_up(state: CacheState, key: CacheKey, now: int)
    requires
        state.found(key, now) is Some,
    ensures
        state.warmed_up(key, now),
{
}

/// When the count reaches the threshold, the key may be served from then on.
pub proof fn law_reached_is_warmed_up(state: CacheState, key: CacheKey, hash: u64, now: int)
    requires
        state.valid(),
        state.reaches(key, hash, now),
    ensures
        state.after_record(key, hash, now).warmed_up(key, now),
{
}

/// Whether the table of sightings can take a response under `key`.
pub open spec fn has_room(state: CacheState, key: CacheKey, now: int) -> bool {
    state.before_count(key, now).takes(key)
}

/// A response other than the one before starts the count anew, and its window with it.
pub proof fn law_other_response_starts_anew(state: CacheState, key: CacheKey, hash: u64, now: int)
    requires
        state.min_hit_count > 1,
        !state.is_live(key, now),
        state.occurrences.contains_key(key),
        !state.window_over(key, now),
        !state.occurrences[key].warmed_up,
        state.occurrences[key].count > 0,
        state.occurrences[key].response_hash != hash,
    ensures
        !state.reaches(key, hash, now),
        state.after_record(key, hash, now).occurrences[key] == (Sighting {
            count: 1,
            first_seen: now,
            response_hash: hash,
            warmed_up: false,
        }),
{
}

/// When the window of a key is over, what was counted is forgotten, whether or not it had
/// reached the threshold, and the count starts with the response at hand.
pub proof fn law_window_starts_anew(state: CacheState, key: CacheKey, hash: u64, now: int)
    requires
        state.valid(),
        state.min_hit_count > 1,
        !state.is_live(key, now),
        state.occurrences.contains_key(key),
        state.window_over(key, now),
        has_room(state, key, now),
    ensures
        !state.reaches(key, hash, now),
        state.after_record(key, hash, now).occurrences[key] == (Sighting {
            count: 1,
            first_seen: now,
            response_hash: hash,
            warmed_up: false,
        }),
{
}

/// The state after the same response has come back at each of `times`.
pub open spec fn after_run(
    state: CacheState,
    key: CacheKey,
    hash: u64,
    times: Seq<int>,
) -> CacheState
    decreases times.len(),
{
    if times.len() == 0 {
        state
    } else {
        after_run(state, key, hash, times.drop_last()).after_record(key, hash, times.last())
    }
}

/// Whether the count for `key` starts anew with a response of the fingerprint `hash`: nothing is
/// served under the key, and there is no count whose window lasts, or one of another response.
pub open spec fn starts_anew(state: CacheState, key: CacheKey, hash: u64, now: int) -> bool {
    &&& !state.is_live(key, now)
    &&& state.occurrences.contains_key(key) && !state.window_over(key, now) ==> {
        let seen = state.occurrences[key];
        seen.count > 0 && seen.response_hash != hash && !seen.warmed_up
    }
}

/// Whether `key` has been seen `count` times, first at `first`, with the same response.
pub open spec fn counted(
    state: CacheState,
    key: CacheKey,
    hash: u64,
    count: int,
    first: int,
) -> bool {
    &&& !state.entries.contains_key(key)
    &&& state.occurrences.contains_key(key)
    &&& state.occurrences[key] == Sighting {
        count,
        first_seen: first,
        response_hash: hash,
        warmed_up: count >= state.min_hit_count,
    }
}

/// The response that starts the count.
pub proof fn lemma_first_counted(state: CacheState, key: CacheKey, hash: u64, now: int)
    requires
        state.min_hit_count > 0,
        starts_anew(state, key, hash, now),
        has_room(state, key, now),
    ensures
        counted(state.after_record(key, hash, now), key, hash, 1, now),
        state.reaches(key, hash, now) <==> 1 >= state.min_hit_count,
{
    let ready = state.before_count(key, now);
    assert(!ready.entries.contains_key(key));
}

/// A response that goes on with the count.
pub proof fn lemma_next_counted(
    state: CacheState,
    key: CacheKey,
    hash: u64,
    count: int,
    first: int,
    now: int,
)
    requires
        0 < count < state.min_hit_count,
        counted(state, key, hash, count, first),
        elapsed(first, now) <= state.warmup_window,
    ensures
        counted(state.after_record(key, hash, now), key, hash, count + 1, first),
        state.reaches(key, hash, now) <==> count + 1 >= state.min_hit_count,
{
    let ready = state.before_count(key, now);
    assert(ready.occurrences.contains_key(key));
}

/// What happens under other keys does not touch the count for a key while its window lasts, nor a
/// response under it that nobody has stored.
pub proof fn law_other_keys_do_not_interfere(
    state: CacheState,
    key: CacheKey,
    hash: u64,
    count: int,
    first: int,
    other: CacheKey,
    other_hash: u64,
    response: Json,
    request_bytes: int,
    now: int,
)
    requires
        counted(state, key, hash, count, first),
        elapsed(first, now) <= state.warmup_window,
        other != key,
    ensures
        counted(state.after_get(other, now), key, hash, count, first),
        counted(state.after_put(other, response, request_bytes, now), key, hash, count, first),
        counted(state.after_record(other, other_hash, now), key, hash, count, first),
{
}

/// What a run of equal responses leaves behind.
proof fn lemma_run(state: CacheState, key: CacheKey, hash: u64, times: Seq<int>)
    requires
        0 < times.len() <= state.min_hit_count,
        starts_anew(state, key, hash, times[0]),
        has_room(state, key, times[0]),
        forall|i: int| 0 <= i < times.len() ==> elapsed(times[0], #[trigger] times[i])
            <= state.warmup_window,
    ensures
        counted(
            after_run(state, key, hash, times),
            key,
            hash,
            times.len() as int,
            times[0],
        ),
        after_run(state, key, hash, times).min_hit_count == state.min_hit_count,
        after_run(state, key, hash, times).warmup_window == state.warmup_window,
    decreases times.len(),
{
    let rest = times.drop_last();
    let now = times[times.len() - 1];
    if rest.len() == 0 {
        lemma_first_counted(state, key, hash, now);
    } else {
        assert forall|i: int| 0 <= i < rest.len() implies elapsed(rest[0], #[trigger] rest[i])
            <= state.warmup_window by {
            assert(rest[i] == times[i]);
        }
        assert(elapsed(times[0], now) <= state.warmup_window);
        lemma_run(state, key, hash, rest);
        lemma_next_counted(
            after_run(state, key, hash, rest),
            key,
            hash,
            rest.len() as int,
            times[0],
            now,
        );
    }
}

/// The same response has to come back `min_hit_count` times within the window before it may be
/// served: in a run of equal responses each one before that falls short, and that one reaches the
/// threshold, for as long as the window lasts. (The table of sightings has to have room for the
/// key.)
pub proof fn law_warmup_threshold(state: CacheState, key: CacheKey, hash: u64, times: Seq<int>)
    requires
        0 < times.len() <= state.min_hit_count,
        starts_anew(state, key, hash, times[0]),
        has_room(state, key, times[0]),
        forall|i: int| 0 <= i < times.len() ==> elapsed(times[0], #[trigger] times[i])
            <= state.warmup_window,
    ensures
        after_run(state, key, hash, times.drop_last()).reaches(key, hash, times.last())
            <==> times.len() == state.min_hit_count,
        forall|now: int|
            #![trigger after_run(state, key, hash, times).warmed_up(key, now)]
            after_run(state, key, hash, times).warmed_up(key, now) <==> times.len()
                == state.min_hit_count && elapsed(times[0], now) <= state.warmup_window,
{
    lemma_run(state, key, hash, times);
    let rest = times.drop_last();
    let now = times[times.len() - 1];
    if rest.len() == 0 {
        lemma_first_counted(state, key, hash, now);
    } else {
        assert forall|i: int| 0 <= i < rest.len() implies elapsed(rest[0], #[trigger] rest[i])
            <= state.warmup_window by {
            assert(rest[i] == times[i]);
        }
        assert(elapsed(times[0], now) <= state.warmup_window);
        lemma_run(state, key, hash, rest);
        lemma_next_counted(
            after_run(state, key, hash, rest),
            key,
            hash,
            rest.len() as int,
            times[0],
            now,
        );
    }
}

/// While its window lasts, a key that has reached the threshold stays there, whatever comes back.
pub proof fn law_warmed_up_stays(state: CacheState, key: CacheKey, hash: u64, now: int)
    requires
        state.occurrences.contains_key(key),
        state.occurrences[key].warmed_up,
        !state.window_over(key, now),
    ensures
        state.reaches(key, hash, now),
        state.after_record(key, hash, now).warmed_up(key, now),
{
}

/// Counting a response never puts one into the cache, and takes out at most the one under its
/// own key, when that has expired.
pub proof fn law_record_stores_nothing(
    state: CacheState,
    key: CacheKey,
    hash: u64,
    other: CacheKey,
    now: int,
)
    ensures
        state.after_record(key, hash, now).found(other, now) == state.found(other, now),
{
}

/// Dropping everything leaves nothing to be found, and nothing counted.
pub proof fn law_cleared(state: CacheState, key: CacheKey, now: int)
    ensures
        state.cleared().found(key, now) is None,
        state.min_hit_count > 0 ==> !state.cleared().warmed_up(key, now),
{
}

} // verus!

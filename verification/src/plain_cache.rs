//! What the response cache does, in plain terms: which entries, counts and keys there are
//! afterwards, with times compared by subtraction.

use vstd::prelude::*;

use crate::cache::NANOS_PER_SEC;
use crate::cache_laws::{
    after_run, law_capacity, law_warmup_threshold, lemma_member, lemma_size, lemma_without,
};
use crate::cache_model::{without, CacheState, Sighting, StoredResponse};
use crate::canonical::response_fingerprint;
use crate::chat::RequestInfo;
use crate::clock::{duration_nanos, time_between, Clock};
use crate::exchange::{after_begin, after_conclude, began, plan, Plan, Step};
use crate::gate::{
    after_answer, after_events, after_serve, answer_count, answers,
    law_served_from_the_threshold_on, served, warms_up, Event,
};
use crate::history::{
    after_ops, counted_for, has_run, law_history_keeps_valid, law_stored_response_lasts,
    law_stored_response_outlasts_others,
    law_threshold_is_a_run_of_equal_responses, lemma_without_concat, puts, used, watched, Op,
};
use crate::interop::json_parse_bytes;
use crate::json::Json;
use crate::key::{cache_key, CacheKey};

verus! {

/// Taking the key at `p` out of an order leaves what stands before it and what stands after it.
proof fn lemma_taken_out(order: Seq<CacheKey>, p: int)
    requires
        order.no_duplicates(),
        0 <= p < order.len(),
    ensures
        without(order, order[p]) == order.take(p) + order.skip(p + 1),
{
    let key = order[p];
    let before = order.take(p);
    let after = order.skip(p + 1);
    let middle = seq![key];
    assert(order =~= before + middle + after);
    lemma_without_concat(before + middle, after, key);
    lemma_without_concat(before, middle, key);
    lemma_without(before, key);
    lemma_without(after, key);
    lemma_without(middle, key);
    assert(middle[0] == key);
    assert(without(middle, key) =~= Seq::empty()) by {
        if without(middle, key).len() > 0 {
            let x = without(middle, key)[0];
            assert(without(middle, key).contains(x));
            assert(middle.contains(x));
        }
    }
    if before.contains(key) {
        let i = choose|i: int| 0 <= i < before.len() && before[i] == key;
        assert(order[i] == order[p]);
    }
    if after.contains(key) {
        let i = choose|i: int| 0 <= i < after.len() && after[i] == key;
        assert(order[i + p + 1] == order[p]);
    }
    assert(without(order, key) =~= before + after);
}

/// A response that was stored is found exactly as long as no more time than the time to live has
/// passed since.
pub proof fn law_found_exactly_until_ttl(
    state: CacheState,
    key: CacheKey,
    response: Json,
    request_bytes: int,
    stored_at: int,
    now: int,
)
    requires
        state.max_entries > 0,
        state.ttl >= 0,
        request_bytes <= state.max_request_bytes,
    ensures
        now - stored_at <= state.ttl ==> state.after_put(
            key,
            response,
            request_bytes,
            stored_at,
        ).found(key, now) == Some(response),
        now - stored_at > state.ttl ==> state.after_put(
            key,
            response,
            request_bytes,
            stored_at,
        ).found(key, now) is None,
{
}

/// The time to live of a new cache is given in seconds; a second has a thousand million
/// nanoseconds.
pub proof fn law_ttl_is_in_seconds(
    ttl_secs: u64,
    max_entries: int,
    max_request_bytes: int,
    key: CacheKey,
    response: Json,
    request_bytes: int,
    stored_at: int,
    now: int,
)
    requires
        max_entries > 0,
        request_bytes <= max_request_bytes,
    ensures
        ({
            let new = CacheState::empty(ttl_secs * NANOS_PER_SEC, max_entries, max_request_bytes);
            let after = new.after_put(key, response, request_bytes, stored_at);
            after.found(key, now) is Some <==> now - stored_at <= ttl_secs * 1_000_000_000
        }),
{
    law_found_exactly_until_ttl(
        CacheState::empty(ttl_secs * NANOS_PER_SEC, max_entries, max_request_bytes),
        key,
        response,
        request_bytes,
        stored_at,
        now,
    );
}

/// A new cache has nothing in it, and has counted nothing.
pub proof fn law_new_cache(ttl: int, max_entries: int, max_request_bytes: int, key: CacheKey)
    ensures
        ({
            let new = CacheState::empty(ttl, max_entries, max_request_bytes);
            &&& !new.entries.contains_key(key)
            &&& !new.occurrences.contains_key(key)
            &&& new.order.len() == 0
            &&& new.hits == 0 && new.misses == 0 && new.stores == 0
            &&& new.evictions == 0 && new.expirations == 0 && new.oversize_skips == 0
            &&& new.ttl == ttl
            &&& new.max_entries == max_entries
            &&& new.max_request_bytes == max_request_bytes
            &&& new.min_hit_count == 0
        }),
{
}

/// A lookup of a key that is not cached is a miss, and changes nothing else.
pub proof fn law_lookup_of_nothing(state: CacheState, key: CacheKey, now: int)
    requires
        !state.entries.contains_key(key),
    ensures
        state.found(key, now) is None,
        state.after_get(key, now) == (CacheState { misses: state.misses + 1, ..state }),
{
}

/// A lookup of a response that is younger than the time to live hands it out, counts a hit, and
/// makes its key the last in the order, in which the others keep their places.
pub proof fn law_lookup_of_young_response(state: CacheState, p: int, now: int)
    requires
        state.valid(),
        0 <= p < state.order.len(),
        now - state.entries[state.order[p]].stored_at <= state.ttl,
    ensures
        ({
            let key = state.order[p];
            &&& state.entries.contains_key(key)
            &&& state.found(key, now) == Some(state.entries[key].response)
            &&& state.after_get(key, now) == CacheState {
                hits: state.hits + 1,
                order: (state.order.take(p) + state.order.skip(p + 1)).push(key),
                ..state
            }
        }),
{
    lemma_taken_out(state.order, p);
    lemma_member(state, state.order[p]);
}

/// A lookup of a response that is older than the time to live hands out nothing, drops it, and
/// counts an expiration and a miss. The other keys keep their places.
pub proof fn law_lookup_of_old_response(state: CacheState, p: int, now: int)
    requires
        state.valid(),
        0 <= p < state.order.len(),
        now - state.entries[state.order[p]].stored_at > state.ttl,
    ensures
        ({
            let key = state.order[p];
            &&& state.found(key, now) is None
            &&& state.after_get(key, now) == CacheState {
                misses: state.misses + 1,
                expirations: state.expirations + 1,
                entries: state.entries.remove(key),
                order: state.order.take(p) + state.order.skip(p + 1),
                ..state
            }
        }),
{
    lemma_taken_out(state.order, p);
    lemma_member(state, state.order[p]);
}

/// Storing under a new key while there is room adds the response, and changes nothing else.
pub proof fn law_store_with_room(
    state: CacheState,
    key: CacheKey,
    response: Json,
    request_bytes: int,
    now: int,
)
    requires
        state.valid(),
        state.order.len() < state.max_entries,
        !state.entries.contains_key(key),
        request_bytes <= state.max_request_bytes,
    ensures
        state.after_put(key, response, request_bytes, now) == (CacheState {
            entries: state.entries.insert(key, StoredResponse { response, stored_at: now }),
            order: state.order.push(key),
            stores: state.stores + 1,
            ..state
        }),
{
    assert(state.order.take(0).to_set() =~= Set::empty());
    assert(state.evicted().entries =~= state.entries);
    assert(state.order.skip(0) =~= state.order);
    lemma_member(state, key);
    lemma_without(state.order, key);
}

/// Storing under a new key in a full cache takes out the response whose key is the first in the
/// order, and changes nothing else.
pub proof fn law_store_without_room(
    state: CacheState,
    key: CacheKey,
    response: Json,
    request_bytes: int,
    now: int,
)
    requires
        state.valid(),
        state.order.len() == state.max_entries,
        state.max_entries > 0,
        !state.entries.contains_key(key),
        request_bytes <= state.max_request_bytes,
    ensures
        state.after_put(key, response, request_bytes, now) == (CacheState {
            entries: state.entries.remove(state.order[0]).insert(
                key,
                StoredResponse { response, stored_at: now },
            ),
            order: state.order.skip(1).push(key),
            stores: state.stores + 1,
            evictions: state.evictions + 1,
            ..state
        }),
{
    crate::cache_laws::law_full_cache_evicts_least_recent(state, key, response, request_bytes, now);
}

/// Storing under a key that is cached replaces its response and its time, makes it the last in the
/// order, and changes nothing else.
pub proof fn law_store_again(
    state: CacheState,
    p: int,
    response: Json,
    request_bytes: int,
    now: int,
)
    requires
        state.valid(),
        0 <= p < state.order.len(),
        request_bytes <= state.max_request_bytes,
    ensures
        state.after_put(state.order[p], response, request_bytes, now) == (CacheState {
            entries: state.entries.insert(
                state.order[p],
                StoredResponse { response, stored_at: now },
            ),
            order: (state.order.take(p) + state.order.skip(p + 1)).push(state.order[p]),
            ..state
        }),
{
    lemma_taken_out(state.order, p);
    lemma_member(state, state.order[p]);
}

/// The response to a request that is too large is counted and not stored; a cache for no responses
/// stores none.
pub proof fn law_not_stored(
    state: CacheState,
    key: CacheKey,
    response: Json,
    request_bytes: int,
    now: int,
)
    ensures
        request_bytes > state.max_request_bytes ==> state.after_put(
            key,
            response,
            request_bytes,
            now,
        ) == (CacheState { oversize_skips: state.oversize_skips + 1, ..state }),
        request_bytes <= state.max_request_bytes && state.max_entries == 0 ==> state.after_put(
            key,
            response,
            request_bytes,
            now,
        ) == state,
{
}

/// Dropping everything leaves the counters and the settings.
pub proof fn law_drop_everything(state: CacheState, key: CacheKey)
    ensures
        !state.cleared().entries.contains_key(key),
        !state.cleared().occurrences.contains_key(key),
        state.cleared().order.len() == 0,
        state.cleared() == (CacheState {
            entries: state.cleared().entries,
            order: state.cleared().order,
            occurrences: state.cleared().occurrences,
            ..state
        }),
{
}

/// Whether there is no response under `key` that is young enough.
pub open spec fn has_no_young(state: CacheState, key: CacheKey, now: int) -> bool {
    !state.entries.contains_key(key) || now - state.entries[key].stored_at > state.ttl
}

/// Whether the warm-up has a count for `key` whose window lasts.
pub open spec fn has_count(state: CacheState, key: CacheKey, now: int) -> bool {
    state.occurrences.contains_key(key) && now - state.occurrences[key].first_seen
        <= state.warmup_window
}

/// What the warm-up knows of a key after a response.
pub open spec fn counts_on(
    state: CacheState,
    key: CacheKey,
    hash: u64,
    now: int,
    next: Sighting,
) -> bool {
    let seen = state.occurrences[key];
    &&& !has_count(state, key, now) ==> next == Sighting {
        count: 1,
        first_seen: now,
        response_hash: hash,
        warmed_up: 1 >= state.min_hit_count,
    }
    &&& has_count(state, key, now) && seen.warmed_up ==> next == seen
    &&& has_count(state, key, now) && !seen.warmed_up && seen.count > 0 && seen.response_hash
        == hash ==> next == Sighting {
        count: seen.count + 1,
        first_seen: seen.first_seen,
        response_hash: hash,
        warmed_up: seen.count + 1 >= state.min_hit_count,
    }
    &&& has_count(state, key, now) && !seen.warmed_up && seen.count > 0 && seen.response_hash
        != hash ==> next == Sighting {
        count: 1,
        first_seen: now,
        response_hash: hash,
        warmed_up: 1 >= state.min_hit_count,
    }
}

/// A response under a key without a young response is always counted where the table holds the key
/// or fewer than twice `max_entries` keys; it reaches the threshold exactly if its count does.
pub proof fn law_response_is_counted(state: CacheState, key: CacheKey, hash: u64, now: int)
    requires
        state.valid(),
        state.min_hit_count > 0,
        has_no_young(state, key, now),
        state.occurrences.contains_key(key) || state.occurrences.dom().len() < 2
            * state.max_entries,
    ensures
        state.after_record(key, hash, now).occurrences.contains_key(key),
        counts_on(
            state,
            key,
            hash,
            now,
            state.after_record(key, hash, now).occurrences[key],
        ),
        state.reaches(key, hash, now) == state.after_record(
            key,
            hash,
            now,
        ).occurrences[key].warmed_up,
{
    let ready = state.before_count(key, now);
    if state.occurrences.contains_key(key) && state.window_over(key, now) {
        assert(ready.occurrences.dom() =~= state.occurrences.dom().remove(key));
    }
    assert(ready.takes(key));
}

/// While the table holds fewer than twice `max_entries` keys, counting a response touches the
/// count of no other key.
pub proof fn law_count_touches_no_other(
    state: CacheState,
    key: CacheKey,
    hash: u64,
    now: int,
    other: CacheKey,
)
    requires
        state.valid(),
        other != key,
        state.occurrences.dom().len() < 2 * state.max_entries,
    ensures
        state.after_record(key, hash, now).occurrences.contains_key(other)
            == state.occurrences.contains_key(other),
        state.occurrences.contains_key(other) ==> state.after_record(
            key,
            hash,
            now,
        ).occurrences[other] == state.occurrences[other],
{
    let f = state.refreshed(key, now).forgotten(key, now);
    vstd::set_lib::lemma_len_subset(f.occurrences.dom(), state.occurrences.dom());
}

/// In a full table a key whose count's window lasts keeps its count, whatever is counted.
pub proof fn law_count_lasts_in_a_full_table(
    state: CacheState,
    key: CacheKey,
    hash: u64,
    now: int,
    other: CacheKey,
)
    requires
        state.valid(),
        other != key,
        has_count(state, other, now),
    ensures
        state.after_record(key, hash, now).occurrences.contains_key(other),
        state.after_record(key, hash, now).occurrences[other] == state.occurrences[other],
{
}

/// A table with twice `max_entries` keys whose windows all last takes no further key.
pub proof fn law_full_table_takes_no_further_key(
    state: CacheState,
    key: CacheKey,
    hash: u64,
    now: int,
)
    requires
        state.valid(),
        state.min_hit_count > 0,
        has_no_young(state, key, now),
        !state.occurrences.contains_key(key),
        state.occurrences.dom().len() == 2 * state.max_entries,
        forall|k: CacheKey| #[trigger]
            state.occurrences.contains_key(k) ==> now - state.occurrences[k].first_seen
                <= state.warmup_window,
    ensures
        !state.reaches(key, hash, now),
        state.after_record(key, hash, now).occurrences == state.occurrences,
{
    let ready = state.before_count(key, now);
    assert(ready.occurrences =~= state.occurrences);
}

/// A full table in which the window of some key is over takes a further key, and forgets the keys
/// whose windows are over.
pub proof fn law_full_table_forgets(
    state: CacheState,
    key: CacheKey,
    hash: u64,
    now: int,
    gone: CacheKey,
)
    requires
        state.valid(),
        state.min_hit_count > 0,
        has_no_young(state, key, now),
        !state.occurrences.contains_key(key),
        state.occurrences.dom().len() == 2 * state.max_entries,
        state.occurrences.contains_key(gone),
        now - state.occurrences[gone].first_seen > state.warmup_window,
    ensures
        state.after_record(key, hash, now).occurrences.contains_key(key),
        !state.after_record(key, hash, now).occurrences.contains_key(gone),
        counts_on(
            state,
            key,
            hash,
            now,
            state.after_record(key, hash, now).occurrences[key],
        ),
{
    let ready = state.before_count(key, now);
    assert(ready.occurrences.dom().subset_of(state.occurrences.dom().remove(gone)));
    vstd::set_lib::lemma_len_subset(
        ready.occurrences.dom(),
        state.occurrences.dom().remove(gone),
    );
    assert(ready.takes(key));
}

/// Counting a response drops a response under its key that is too old, and counts that as an
/// expiration. Apart from that it touches neither the cached responses nor the counters.
pub proof fn law_count_drops_old_response(state: CacheState, key: CacheKey, hash: u64, now: int)
    requires
        state.valid(),
        state.min_hit_count > 0,
    ensures
        ({
            let after = state.after_record(key, hash, now);
            let old = state.entries.contains_key(key) && now - state.entries[key].stored_at
                > state.ttl;
            &&& after.entries == if old {
                state.entries.remove(key)
            } else {
                state.entries
            }
            &&& after.expirations == state.expirations + if old {
                1int
            } else {
                0
            }
            &&& !old ==> after.order == state.order
            &&& after.hits == state.hits && after.misses == state.misses
            &&& after.stores == state.stores && after.evictions == state.evictions
            &&& after.oversize_skips == state.oversize_skips
        }),
{
}

/// While there is a young response under its key, or where there is no warm-up, a response is at
/// the threshold, and counting it changes nothing.
pub proof fn law_nothing_to_count(state: CacheState, key: CacheKey, hash: u64, now: int)
    requires
        state.valid(),
        state.min_hit_count == 0 || !has_no_young(state, key, now),
    ensures
        state.reaches(key, hash, now),
        state.after_record(key, hash, now) == state,
{
}

/// When responses under a key may be served: without a warm-up always; with one while there is a
/// young response, or a count at the threshold whose window lasts.
pub proof fn law_when_warmed_up(state: CacheState, key: CacheKey, now: int)
    requires
        state.valid(),
    ensures
        state.warmed_up(key, now) <==> {
            ||| state.min_hit_count == 0
            ||| !has_no_young(state, key, now)
            ||| has_count(state, key, now) && state.occurrences[key].warmed_up
        },
{
}

/// The keys that are reported as warming up are those that are counted and short of the threshold.
pub proof fn law_warming_keys(state: CacheState, key: CacheKey)
    ensures
        state.warming().contains(key) <==> state.occurrences.contains_key(key)
            && !state.occurrences[key].warmed_up,
{
}

/// In a cache whose table holds fewer than twice `max_entries` keys, a key that is neither cached
/// nor counted reaches the threshold with the `min_hit_count`-th equal response within the window,
/// and not before.
pub proof fn law_equal_responses_reach_the_threshold(
    state: CacheState,
    key: CacheKey,
    hash: u64,
    times: Seq<int>,
)
    requires
        state.valid(),
        0 < times.len() <= state.min_hit_count,
        !state.entries.contains_key(key),
        !state.occurrences.contains_key(key),
        state.occurrences.dom().len() < 2 * state.max_entries,
        forall|i: int| 0 <= i < times.len() ==> (#[trigger] times[i]) - times[0]
            <= state.warmup_window,
    ensures
        after_run(state, key, hash, times.drop_last()).reaches(key, hash, times.last())
            <==> times.len() == state.min_hit_count,
{
    law_warmup_threshold(state, key, hash, times);
}

/// What is served: the response that is cached under the key and young enough, and nothing else.
pub proof fn law_what_is_served(state: CacheState, key: CacheKey, now: int)
    requires
        state.valid(),
    ensures
        served(state, key, now) == if has_no_young(state, key, now) {
            None
        } else {
            Some(state.entries[key].response)
        },
{
}

/// A request under a key that may not be served is no lookup.
pub proof fn law_request_while_warming(state: CacheState, key: CacheKey, now: int)
    requires
        state.valid(),
        state.min_hit_count > 0,
        has_no_young(state, key, now),
        !has_count(state, key, now) || !state.occurrences[key].warmed_up,
    ensures
        after_serve(state, key, now) == state,
{
}

/// A request under a key that may be served is a lookup, whether it finds something or not: it
/// counts as a hit, or as a miss.
pub proof fn law_request_that_may_be_served(state: CacheState, key: CacheKey, now: int)
    requires
        state.valid(),
        state.min_hit_count == 0 || !has_no_young(state, key, now) || has_count(state, key, now)
            && state.occurrences[key].warmed_up,
    ensures
        after_serve(state, key, now) == state.after_get(key, now),
        !has_no_young(state, key, now) ==> after_serve(state, key, now).hits == state.hits + 1,
        has_no_young(state, key, now) ==> after_serve(state, key, now).misses == state.misses + 1,
{
}

/// An answer is counted; it is handed in if and only if it reaches the threshold.
pub proof fn law_answer_is_counted_and_stored(
    state: CacheState,
    key: CacheKey,
    response: Json,
    request_bytes: int,
    now: int,
)
    ensures
        ({
            let hash = response_fingerprint(response);
            let counted = state.after_record(key, hash, now);
            let after = after_answer(state, key, response, request_bytes, now);
            &&& state.reaches(key, hash, now) ==> after == counted.after_put(
                key,
                response,
                request_bytes,
                now,
            )
            &&& !state.reaches(key, hash, now) ==> after == counted
            &&& after_conclude(state, Some(key), response, request_bytes, now) == after
            &&& after_conclude(state, None, response, request_bytes, now) == state
        }),
{
}

/// The promise of the warm-up for a key that is neither cached nor counted, while the table holds
/// fewer than twice `max_entries` keys: until the upstream has given `min_hit_count` answers of the
/// same content within the window nothing is served; then the last of them is, exactly as long as
/// no more time than the time to live has passed since.
pub proof fn law_answers_of_the_same_content_are_served(
    state: CacheState,
    key: CacheKey,
    hash: u64,
    events: Seq<(Event, int)>,
    now: int,
)
    requires
        state.valid(),
        state.min_hit_count > 0,
        state.max_entries > 0,
        !state.entries.contains_key(key),
        !state.occurrences.contains_key(key),
        state.occurrences.dom().len() < 2 * state.max_entries,
        events.len() > 0,
        answers(events[0].0, key),
        forall|i: int|
            0 <= i < events.len() ==> (#[trigger] events[i]).1 - events[0].1 <= state.warmup_window
                && (answers(events[i].0, key) ==> response_fingerprint(events[i].0->response)
                == hash),
    ensures
        answer_count(events, key) < state.min_hit_count ==> served(
            after_events(state, events),
            key,
            now,
        ) is None,
        answer_count(events, key) == state.min_hit_count && answers(events.last().0, key)
            && events.last().0->request_bytes <= state.max_request_bytes && now - events.last().1
            <= state.ttl ==> served(after_events(state, events), key, now) == Some(
            events.last().0->response,
        ),
{
    assert forall|i: int| 0 <= i < events.len() implies warms_up(state, key, hash, events, i) by {
        assert(events[i].1 - events[0].1 <= state.warmup_window);
    }
    law_served_from_the_threshold_on(state, key, hash, events, now);
}

/// A response that was stored comes back whole, exactly as long as no more time than the time to
/// live has passed since, whatever is looked up and counted in between.
pub proof fn law_stored_response_lasts_for_its_ttl(
    state: CacheState,
    key: CacheKey,
    response: Json,
    request_bytes: int,
    stored_at: int,
    ops: Seq<(Op, int)>,
    now: int,
)
    requires
        state.valid(),
        state.max_entries > 0,
        request_bytes <= state.max_request_bytes,
        forall|i: int|
            0 <= i < ops.len() ==> !((#[trigger] ops[i]).0 is Put) && stored_at <= ops[i].1 <= now,
    ensures
        ({
            let after = after_ops(
                state.after_put(key, response, request_bytes, stored_at),
                ops,
            );
            &&& now - stored_at <= state.ttl ==> after.found(key, now) == Some(response)
            &&& now - stored_at > state.ttl ==> after.found(key, now) is None
        }),
{
    if now - stored_at <= state.ttl {
        law_stored_response_lasts(state, key, response, request_bytes, stored_at, ops, now);
    }
    let start = state.after_put(key, response, request_bytes, stored_at);
    lemma_same_or_gone(start, key, ops);
}

/// Whatever is done, the response under a key is the one that was stored last, or there is none.
proof fn lemma_same_or_gone(state: CacheState, key: CacheKey, ops: Seq<(Op, int)>)
    requires
        forall|i: int| 0 <= i < ops.len() ==> !puts((#[trigger] ops[i]).0, key),
    ensures
        after_ops(state, ops).ttl == state.ttl,
        after_ops(state, ops).entries.contains_key(key) ==> state.entries.contains_key(key)
            && after_ops(state, ops).entries[key] == state.entries[key],
    decreases ops.len(),
{
    if ops.len() > 0 {
        let rest = ops.drop_last();
        assert forall|i: int| 0 <= i < rest.len() implies !puts((#[trigger] rest[i]).0, key) by {
            assert(rest[i] == ops[i]);
        }
        lemma_same_or_gone(state, key, rest);
        assert(ops.last() == ops[ops.len() - 1]);
    }
}

/// A response is never served when more time than the time to live has passed since it was stored,
/// whatever is done in between under whatever keys, short of storing it again.
pub proof fn law_old_response_is_never_served(
    state: CacheState,
    key: CacheKey,
    response: Json,
    request_bytes: int,
    stored_at: int,
    ops: Seq<(Op, int)>,
    now: int,
)
    requires
        state.valid(),
        state.max_entries > 0,
        request_bytes <= state.max_request_bytes,
        forall|i: int| 0 <= i < ops.len() ==> !puts((#[trigger] ops[i]).0, key),
        now - stored_at > state.ttl,
    ensures
        ({
            let after = after_ops(
                state.after_put(key, response, request_bytes, stored_at),
                ops,
            );
            &&& after.found(key, now) is None
            &&& served(after, key, now) is None
        }),
{
    lemma_same_or_gone(state.after_put(key, response, request_bytes, stored_at), key, ops);
}

/// A response that was stored comes back whole while no more time than the time to live has passed
/// since, also where others are stored, as long as fewer than `max_entries` other keys are used.
pub proof fn law_stored_response_outlasts_others_for_its_ttl(
    state: CacheState,
    key: CacheKey,
    response: Json,
    request_bytes: int,
    stored_at: int,
    ops: Seq<(Op, int)>,
    now: int,
)
    requires
        state.valid(),
        request_bytes <= state.max_request_bytes,
        used(state.after_put(key, response, request_bytes, stored_at), ops, key).len()
            < state.max_entries,
        forall|i: int|
            0 <= i < ops.len() ==> !puts((#[trigger] ops[i]).0, key) && stored_at <= ops[i].1
                <= now,
        now - stored_at <= state.ttl,
    ensures
        after_ops(state.after_put(key, response, request_bytes, stored_at), ops).found(key, now)
            == Some(response),
{
    law_stored_response_outlasts_others(
        state,
        key,
        response,
        request_bytes,
        stored_at,
        ops,
        now,
    );
}

/// Over any history within the window, a response reaches the threshold if and only if some
/// `min_hit_count` of the responses for its key so far, one after the other, were the same, as long
/// as the table holds the key or fewer than twice `max_entries` keys, and there is no young
/// response under the key, whenever a response for it is counted.
pub proof fn law_run_of_equal_responses(
    state: CacheState,
    ops: Seq<(Op, int)>,
    key: CacheKey,
    hash: u64,
    now: int,
    first: int,
)
    requires
        state.valid(),
        state.min_hit_count > 0,
        !state.occurrences.contains_key(key),
        forall|i: int|
            0 <= i < ops.len() ==> first <= (#[trigger] ops[i]).1 <= first + state.warmup_window,
        forall|i: int|
            0 <= i < ops.len() && ((#[trigger] ops[i]).0 matches Op::Record { key: k, .. } && k
                == key) ==> {
                let before = after_ops(state, ops.take(i));
                &&& has_no_young(before, key, ops[i].1)
                &&& before.occurrences.contains_key(key) || before.occurrences.dom().len() < 2
                    * before.max_entries
            },
        first <= now <= first + state.warmup_window,
        has_no_young(after_ops(state, ops), key, now),
        after_ops(state, ops).occurrences.contains_key(key) || after_ops(
            state,
            ops,
        ).occurrences.dom().len() < 2 * state.max_entries,
    ensures
        after_ops(state, ops).reaches(key, hash, now) <==> has_run(
            counted_for(ops, key).push(hash),
            state.min_hit_count,
        ),
{
    assert forall|i: int| 0 <= i < ops.len() implies watched(state, ops, key, first, i) by {
        let before = after_ops(state, ops.take(i));
        law_history_keeps_valid(state, ops.take(i));
        if ops[i].0 matches Op::Record { key: k, .. } && k == key {
            lemma_has_room(before, key, ops[i].1);
        }
    }
    law_history_keeps_valid(state, ops);
    lemma_has_room(after_ops(state, ops), key, now);
    law_threshold_is_a_run_of_equal_responses(state, ops, key, hash, now, first);
}

proof fn lemma_has_room(state: CacheState, key: CacheKey, now: int)
    requires
        state.valid(),
        state.occurrences.contains_key(key) || state.occurrences.dom().len() < 2
            * state.max_entries,
    ensures
        crate::cache_laws::has_room(state, key, now),
{
    let ready = state.before_count(key, now);
    if state.occurrences.contains_key(key) && state.window_over(key, now) {
        assert(ready.occurrences.dom() =~= state.occurrences.dom().remove(key));
    }
}

/// A request that is cached, not streamed, and has a young response under its key is answered with
/// that response; any other request goes to the upstream, and if it may be cached, its answer is
/// noted under its key.
pub proof fn law_what_to_do(
    state: CacheState,
    enabled: bool,
    map: Map<Seq<char>, Json>,
    now: int,
)
    requires
        state.valid(),
    ensures
        ({
            let request = Json::Object(map);
            let streamed = map.contains_key("stream"@) && map["stream"@] == Json::Bool(true);
            let sent = Json::Object(map.insert("stream"@, Json::Bool(true)));
            let model = if map.contains_key("model"@) && map["model"@] is Str {
                map["model"@]->Str_0
            } else {
                "(unknown)"@
            };
            let key = if enabled && !streamed {
                cache_key(request)
            } else {
                None
            };
            let done = plan(state, enabled, request, now);
            &&& streamed ==> done == Plan::Forward(sent)
            &&& !streamed && key is Some && !has_no_young(state, key->0, now) ==> done
                == Plan::Serve { response: state.entries[key->0].response, key: key->0 }
            &&& !streamed && (key is None || has_no_young(state, key->0, now)) ==> done
                == Plan::Collect { request: sent, key, model }
            &&& key is None ==> after_begin(state, enabled, request, now) == state
            &&& key is Some ==> after_begin(state, enabled, request, now) == after_serve(
                state,
                key->0,
                now,
            )
        }),
{
}

/// What is done about a body that holds an object. If it asks for a stream, it is forwarded; if
/// there is a young response under its key, and the cache is on, that is the answer; else the
/// stream that comes back is collected. What is sent is the object with `true` in its field
/// `stream`.
pub proof fn law_what_is_done_about_an_object(
    before: CacheState,
    enabled: bool,
    body: Seq<u8>,
    now: int,
    info: Option<RequestInfo>,
    step: Step,
    after: CacheState,
    map: Map<Seq<char>, Json>,
)
    requires
        before.valid(),
        began(before, enabled, body, now, info, step, after),
        json_parse_bytes(body) == Ok::<Json, Seq<char>>(Json::Object(map)),
    ensures
        ({
            let streamed = map.contains_key("stream"@) && map["stream"@] == Json::Bool(true);
            let sent = Json::Object(map.insert("stream"@, Json::Bool(true)));
            let key = if enabled && !streamed {
                cache_key(Json::Object(map))
            } else {
                None
            };
            &&& info is Some
            &&& info->0.stream == streamed
            &&& map.contains_key("model"@) && map["model"@] is Str ==> info->0.model@
                == map["model"@]->Str_0
            &&& map.contains_key("messages"@) && map["messages"@] is Array
                ==> info->0.message_count == map["messages"@]->Array_0.len()
            &&& streamed ==> (step matches Step::Forward(request) && request@ == sent)
            &&& key is Some && !has_no_young(before, key->0, now) ==> (step matches Step::Serve {
                response,
                key: under,
            } && response@ == before.entries[key->0].response && under == key->0)
            &&& !streamed && (key is None || has_no_young(before, key->0, now)) ==> (
            step matches Step::Collect { request, key: under, model } && request@ == sent && under
                == key && model@ == info->0.model@)
            &&& key is None ==> after == before
        }),
{
    law_what_to_do(before, enabled, map, now);
}

/// A body that is no JSON is refused with the error of the parser; one that is neither an object
/// nor `null` is a misfit. Neither touches the cache.
pub proof fn law_what_is_done_about_another_body(
    before: CacheState,
    enabled: bool,
    body: Seq<u8>,
    now: int,
    info: Option<RequestInfo>,
    step: Step,
    after: CacheState,
    request: Json,
    error: Seq<char>,
)
    requires
        began(before, enabled, body, now, info, step, after),
    ensures
        json_parse_bytes(body) == Err::<Json, Seq<char>>(error) ==> (step matches Step::Refuse(
            message,
        ) && message@ == "Invalid JSON: "@ + error) && info is None && after == before,
        json_parse_bytes(body) == Ok::<Json, Seq<char>>(request) && !(request is Object)
            && !(request is Null) ==> step is Misfit && info is Some && after == before,
        json_parse_bytes(body) == Ok::<Json, Seq<char>>(Json::Null) ==> (
        step matches Step::Collect { request: sent, key, .. } && sent@ == Json::Object(
            map!["stream"@ => Json::Bool(true)],
        ) && key is None) && after == before,
{
    assert(Map::<Seq<char>, Json>::empty().insert("stream"@, Json::Bool(true))
        =~= map!["stream"@ => Json::Bool(true)]);
}

/// The clock shows the nanoseconds from its start, and all of them.
pub proof fn law_clock_shows_nanoseconds(clock: Clock, at: std::time::Instant)
    ensures
        clock.shown_at(at) == duration_nanos(time_between(clock.started(), at)),
{
}

/// A cache can count one more of everything while no counter is at the limit of 64 bits, and there
/// is room in that of the evictions for all responses at once.
pub proof fn law_when_there_is_room_in_the_counters(state: CacheState)
    ensures
        state.can_count() <==> {
            &&& state.hits < 0xffff_ffff_ffff_ffff
            &&& state.misses < 0xffff_ffff_ffff_ffff
            &&& state.stores < 0xffff_ffff_ffff_ffff
            &&& state.expirations < 0xffff_ffff_ffff_ffff
            &&& state.oversize_skips < 0xffff_ffff_ffff_ffff
            &&& state.evictions + state.order.len() <= 0xffff_ffff_ffff_ffff
        },
{
}

/// A valid cache holds at most `max_entries` responses and counts for at most twice as many keys.
pub proof fn law_bounds(state: CacheState)
    requires
        state.valid(),
    ensures
        state.entries.dom().len() <= state.max_entries,
        state.order.len() == state.entries.dom().len(),
        state.occurrences.dom().len() <= 2 * state.max_entries,
{
    law_capacity(state);
    lemma_size(state);
}

} // verus!

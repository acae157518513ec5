//! When a response is served from the cache, and when one is stored.

use vstd::prelude::*;

use crate::cache::ResponseCache;
use crate::cache_laws::{
    counted, has_room, law_other_keys_do_not_interfere, law_record_keeps_valid,
    law_record_stores_nothing, lemma_evicted, lemma_first_counted, lemma_next_counted, starts_anew,
};
use crate::cache_model::{elapsed, CacheState};
use crate::canonical::response_fingerprint;
use crate::json::{opt_owned_json, Json, JsonValue};
use crate::key::{cache_key, compute_cache_key, CacheKey};

verus! {

/// The key under which a request is cached; none where it is not to be cached.
pub open spec fn request_key_of(enabled: bool, stream: bool, request: Json) -> Option<CacheKey> {
    if enabled && !stream {
        cache_key(request)
    } else {
        None
    }
}

/// The key under which a request is cached. Only answers that are not streamed are cached.
pub fn request_key(enabled: bool, stream: bool, data: &JsonValue) -> (r: Option<CacheKey>)
    ensures
        r == request_key_of(enabled, stream, data@),
{
    if enabled && !stream {
        compute_cache_key(data)
    } else {
        None
    }
}

/// What is served from the cache for a request.
pub open spec fn served(state: CacheState, key: CacheKey, now: int) -> Option<Json> {
    if state.warmed_up(key, now) {
        state.found(key, now)
    } else {
        None
    }
}

/// The state after a request: only a key that is warmed up is looked up.
pub open spec fn after_serve(state: CacheState, key: CacheKey, now: int) -> CacheState {
    if state.warmed_up(key, now) {
        state.after_get(key, now)
    } else {
        state
    }
}

/// The state after an answer from upstream: it is counted, and stored if it has come back often
/// enough.
pub open spec fn after_answer(
    state: CacheState,
    key: CacheKey,
    response: Json,
    request_bytes: int,
    now: int,
) -> CacheState {
    let hash = response_fingerprint(response);
    let counted = state.after_record(key, hash, now);
    if state.reaches(key, hash, now) {
        counted.after_put(key, response, request_bytes, now)
    } else {
        counted
    }
}

/// What is served from the cache for a request at the time `now`.
pub fn serve_at(cache: &mut ResponseCache, key: CacheKey, now: u128) -> (r: Option<JsonValue>)
    requires
        old(cache)@.valid(),
        after_serve(old(cache)@, key, now as int).counters_fit(),
    ensures
        opt_owned_json(r) == served(old(cache)@, key, now as int),
        final(cache)@ == after_serve(old(cache)@, key, now as int),
        final(cache)@.valid(),
        final(cache).time_keeper() == old(cache).time_keeper(),
{
    if cache.is_warmed_up_at(key, now) {
        cache.get_at(key, now)
    } else {
        None
    }
}

/// Takes note of an answer from upstream, to a request of `request_bytes` bytes, at the time
/// `now`. Whether it was handed to the cache.
pub fn note_answer_at(
    cache: &mut ResponseCache,
    key: CacheKey,
    response: &JsonValue,
    request_bytes: usize,
    now: u128,
) -> (r: bool)
    requires
        old(cache)@.valid(),
        after_answer(
            old(cache)@,
            key,
            response@,
            request_bytes as int,
            now as int,
        ).counters_fit(),
    ensures
        r == old(cache)@.reaches(key, response_fingerprint(response@), now as int),
        final(cache)@ == after_answer(
            old(cache)@,
            key,
            response@,
            request_bytes as int,
            now as int,
        ),
        final(cache)@.valid(),
        final(cache).time_keeper() == old(cache).time_keeper(),
{
    proof {
        law_record_keeps_valid(
            cache@,
            key,
            response_fingerprint(response@),
            now as int,
        );
        if cache@.max_entries > 0 {
            lemma_evicted(
                cache@.after_record(key, response_fingerprint(response@), now as int),
            );
        }
    }
    if cache.record_occurrence_at(key, response, now) {
        cache.put_at(key, response.clone(), request_bytes, now);
        true
    } else {
        false
    }
}

/// An answer that falls short of the threshold is not stored: whatever could be found before can
/// be found after, and nothing else.
pub proof fn law_short_of_threshold_is_not_stored(
    state: CacheState,
    key: CacheKey,
    response: Json,
    request_bytes: int,
    other: CacheKey,
    now: int,
)
    requires
        !state.reaches(key, response_fingerprint(response), now),
    ensures
        after_answer(state, key, response, request_bytes, now).found(other, now) == state.found(
            other,
            now,
        ),
{
    law_record_stores_nothing(
        state,
        key,
        response_fingerprint(response),
        other,
        now,
    );
}

/// What is served under a key is what can be found under it: the warm-up keeps nothing back that
/// is in the cache.
pub proof fn law_served_is_found(state: CacheState, key: CacheKey, now: int)
    ensures
        served(state, key, now) == state.found(key, now),
{
}

/// What can happen to the cache.
pub ghost enum Event {
    /// A request under a key.
    Request(CacheKey),
    /// An answer from the upstream to a request under a key.
    Answer { key: CacheKey, response: Json, request_bytes: int },
}

/// The state after an event.
pub open spec fn after_event(state: CacheState, event: Event, now: int) -> CacheState {
    match event {
        Event::Request(key) => after_serve(state, key, now),
        Event::Answer { key, response, request_bytes } => after_answer(
            state,
            key,
            response,
            request_bytes,
            now,
        ),
    }
}

/// The state after some events, each at its time.
pub open spec fn after_events(state: CacheState, events: Seq<(Event, int)>) -> CacheState
    decreases events.len(),
{
    if events.len() == 0 {
        state
    } else {
        after_event(
            after_events(state, events.drop_last()),
            events.last().0,
            events.last().1,
        )
    }
}

/// Whether an event is an answer to a request under `key`.
pub open spec fn answers(event: Event, key: CacheKey) -> bool {
    event matches Event::Answer { key: k, .. } && k == key
}

/// How many of the events are answers to requests under `key`.
pub open spec fn answer_count(events: Seq<(Event, int)>, key: CacheKey) -> int
    decreases events.len(),
{
    if events.len() == 0 {
        0
    } else {
        answer_count(events.drop_last(), key) + if answers(events.last().0, key) {
            1int
        } else {
            0
        }
    }
}

/// Whether the event at `i` fits into a warm-up of `key` that the first event starts: it falls
/// into the window, and if it is an answer under the key, the response has the fingerprint `hash`.
pub open spec fn warms_up(
    state: CacheState,
    key: CacheKey,
    hash: u64,
    events: Seq<(Event, int)>,
    i: int,
) -> bool {
    &&& elapsed(events[0].1, events[i].1) <= state.warmup_window
    &&& answers(events[i].0, key) ==> response_fingerprint(events[i].0->response) == hash
}

/// What the events of a warm-up leave behind while the threshold is not reached.
proof fn lemma_warming(
    state: CacheState,
    key: CacheKey,
    hash: u64,
    events: Seq<(Event, int)>,
)
    requires
        events.len() > 0,
        answers(events[0].0, key),
        starts_anew(state, key, hash, events[0].1),
        has_room(state, key, events[0].1),
        forall|i: int| 0 <= i < events.len() ==> warms_up(state, key, hash, events, i),
        answer_count(events, key) < state.min_hit_count,
    ensures
        0 < answer_count(events, key),
        counted(
            after_events(state, events),
            key,
            hash,
            answer_count(events, key),
            events[0].1,
        ),
        after_events(state, events).min_hit_count == state.min_hit_count,
        after_events(state, events).warmup_window == state.warmup_window,
        after_events(state, events).ttl == state.ttl,
        after_events(state, events).max_request_bytes == state.max_request_bytes,
        after_events(state, events).max_entries == state.max_entries,
    decreases events.len(),
{
    let rest = events.drop_last();
    let event = events[events.len() - 1].0;
    let now = events[events.len() - 1].1;
    assert(warms_up(state, key, hash, events, events.len() - 1));
    if rest.len() == 0 {
        assert(answer_count(rest, key) == 0);
        assert(after_events(state, rest) == state);
        lemma_first_counted(state, key, hash, now);
    } else {
        assert(answer_count(rest, key) <= answer_count(events, key));
        assert forall|i: int| 0 <= i < rest.len() implies warms_up(state, key, hash, rest, i) by {
            assert(warms_up(state, key, hash, events, i));
        }
        lemma_warming(state, key, hash, rest);
        let before = after_events(state, rest);
        let first = events[0].1;
        match event {
            Event::Request(other) => {
                if other != key {
                    law_other_keys_do_not_interfere(
                        before,
                        key,
                        hash,
                        answer_count(rest, key),
                        first,
                        other,
                        0,
                        Json::Null,
                        0,
                        now,
                    );
                }
            },
            Event::Answer { key: other, response, request_bytes } => {
                let other_hash = response_fingerprint(response);
                if other == key {
                    lemma_next_counted(before, key, hash, answer_count(rest, key), first, now);
                } else {
                    law_other_keys_do_not_interfere(
                        before,
                        key,
                        hash,
                        answer_count(rest, key),
                        first,
                        other,
                        other_hash,
                        response,
                        request_bytes,
                        now,
                    );
                    law_other_keys_do_not_interfere(
                        before.after_record(other, other_hash, now),
                        key,
                        hash,
                        answer_count(rest, key),
                        first,
                        other,
                        other_hash,
                        response,
                        request_bytes,
                        now,
                    );
                }
            },
        }
    }
}

/// The promise of the warm-up. From an answer on with which the count for its key starts anew,
/// requests under that key go to the upstream until it has given answers of the same content
/// `min_hit_count` times within the window; then the last of these answers is served from the
/// cache, while its time to live lasts. Whatever else is asked and answered under other keys in
/// between makes no difference. (The answer to a request that is too large is not stored, and the
/// table of sightings has to have room for the key.)
pub proof fn law_served_from_the_threshold_on(
    state: CacheState,
    key: CacheKey,
    hash: u64,
    events: Seq<(Event, int)>,
    now: int,
)
    requires
        state.min_hit_count > 0,
        state.max_entries > 0,
        events.len() > 0,
        answers(events[0].0, key),
        starts_anew(state, key, hash, events[0].1),
        has_room(state, key, events[0].1),
        forall|i: int| 0 <= i < events.len() ==> warms_up(state, key, hash, events, i),
    ensures
        answer_count(events, key) < state.min_hit_count ==> served(
            after_events(state, events),
            key,
            now,
        ) is None,
        answer_count(events, key) == state.min_hit_count && answers(events.last().0, key)
            && events.last().0->request_bytes <= state.max_request_bytes && elapsed(
            events.last().1,
            now,
        ) <= state.ttl ==> served(after_events(state, events), key, now) == Some(
            events.last().0->response,
        ),
{
    if answer_count(events, key) < state.min_hit_count {
        lemma_warming(state, key, hash, events);
    } else if answer_count(events, key) == state.min_hit_count && answers(events.last().0, key) {
        let rest = events.drop_last();
        let last = events[events.len() - 1].1;
            assert(warms_up(state, key, hash, events, events.len() - 1));
        if rest.len() == 0 {
            assert(after_events(state, rest) == state);
            lemma_first_counted(state, key, hash, last);
        } else {
            assert forall|i: int| 0 <= i < rest.len() implies warms_up(
                state,
                key,
                hash,
                rest,
                i,
            ) by {
                    assert(warms_up(state, key, hash, events, i));
            }
            lemma_warming(state, key, hash, rest);
            lemma_next_counted(
                after_events(state, rest),
                key,
                hash,
                answer_count(rest, key),
                events[0].1,
                last,
            );
        }
    }
}

} // verus!

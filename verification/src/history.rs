//! Laws of the response cache over any history of lookups, stores and counts.

use vstd::prelude::*;

use crate::cache_laws::{
    has_room, law_get_keeps_valid, law_put_keeps_valid, law_record_keeps_valid, lemma_evicted,
    lemma_member, lemma_size, lemma_without,
};
use crate::cache_model::{elapsed, without, CacheState, StoredResponse};
use crate::json::Json;
use crate::key::CacheKey;

verus! {

/// What can be done to the cache, short of dropping everything.
pub ghost enum Op {
    /// A lookup.
    Get(CacheKey),
    /// A response is handed in.
    Put { key: CacheKey, response: Json, request_bytes: int },
    /// A response with a fingerprint is counted.
    Record { key: CacheKey, hash: u64 },
}

/// The state after an operation.
pub open spec fn after_op(state: CacheState, op: Op, now: int) -> CacheState {
    match op {
        Op::Get(key) => state.after_get(key, now),
        Op::Put { key, response, request_bytes } => state.after_put(
            key,
            response,
            request_bytes,
            now,
        ),
        Op::Record { key, hash } => state.after_record(key, hash, now),
    }
}

/// The state after some operations, each at its time.
pub open spec fn after_ops(state: CacheState, ops: Seq<(Op, int)>) -> CacheState
    decreases ops.len(),
{
    if ops.len() == 0 {
        state
    } else {
        after_op(after_ops(state, ops.drop_last()), ops.last().0, ops.last().1)
    }
}

/// Whether two states belong to caches with the same settings.
pub open spec fn same_settings(a: CacheState, b: CacheState) -> bool {
    &&& a.ttl == b.ttl
    &&& a.max_entries == b.max_entries
    &&& a.max_request_bytes == b.max_request_bytes
    &&& a.min_hit_count == b.min_hit_count
    &&& a.warmup_window == b.warmup_window
}

/// Whatever is done to a valid cache, it stays valid, and its settings stay as they are.
pub proof fn law_history_keeps_valid(state: CacheState, ops: Seq<(Op, int)>)
    requires
        state.valid(),
    ensures
        after_ops(state, ops).valid(),
        same_settings(after_ops(state, ops), state),
    decreases ops.len(),
{
    if ops.len() > 0 {
        law_history_keeps_valid(state, ops.drop_last());
        let before = after_ops(state, ops.drop_last());
        let now = ops.last().1;
        match ops.last().0 {
            Op::Get(key) => {
                law_get_keeps_valid(before, key, now);
            },
            Op::Put { key, response, request_bytes } => {
                law_put_keeps_valid(before, key, response, request_bytes, now);
            },
            Op::Record { key, hash } => {
                law_record_keeps_valid(before, key, hash, now);
            },
        }
    }
}

/// Whether every response that was stored is accounted for: it is there, was evicted, or expired.
pub open spec fn balanced(state: CacheState) -> bool {
    state.entries.dom().len() + state.evictions + state.expirations == state.stores
}

/// How many of the operations are lookups.
pub open spec fn lookups(ops: Seq<(Op, int)>) -> int
    decreases ops.len(),
{
    if ops.len() == 0 {
        0
    } else {
        lookups(ops.drop_last()) + if ops.last().0 is Get {
            1int
        } else {
            0
        }
    }
}

/// How many of the operations hand in the response to a request that is too large.
pub open spec fn oversize_puts(ops: Seq<(Op, int)>, max_request_bytes: int) -> int
    decreases ops.len(),
{
    if ops.len() == 0 {
        0
    } else {
        let more = match ops.last().0 {
            Op::Put { request_bytes, .. } => request_bytes > max_request_bytes,
            _ => false,
        };
        oversize_puts(ops.drop_last(), max_request_bytes) + if more {
            1int
        } else {
            0
        }
    }
}

proof fn lemma_op_balances(state: CacheState, op: Op, now: int)
    requires
        state.valid(),
        balanced(state),
        after_op(state, op, now).valid(),
    ensures
        balanced(after_op(state, op, now)),
{
    let next = after_op(state, op, now);
    lemma_size(state);
    lemma_size(next);
    match op {
        Op::Get(key) => {
            lemma_without(state.order, key);
            lemma_member(state, key);
        },
        Op::Put { key, response, request_bytes } => {
            lemma_member(state, key);
            lemma_without(state.order, key);
            if state.max_entries > 0 {
                lemma_evicted(state);
                lemma_member(state.evicted(), key);
                lemma_without(state.evicted().order, key);
            }
        },
        Op::Record { key, hash } => {
            lemma_without(state.order, key);
            lemma_member(state, key);
        },
    }
}

/// The books of the cache: every response that was stored is there, was evicted, or expired; every
/// lookup was a hit or a miss; every response to a request that was too large was counted.
pub proof fn law_books_balance(state: CacheState, ops: Seq<(Op, int)>)
    requires
        state.valid(),
        balanced(state),
    ensures
        balanced(after_ops(state, ops)),
        after_ops(state, ops).hits + after_ops(state, ops).misses == state.hits + state.misses
            + lookups(ops),
        after_ops(state, ops).oversize_skips == state.oversize_skips + oversize_puts(
            ops,
            state.max_request_bytes,
        ),
    decreases ops.len(),
{
    if ops.len() > 0 {
        law_books_balance(state, ops.drop_last());
        law_history_keeps_valid(state, ops.drop_last());
        law_history_keeps_valid(state, ops);
        lemma_op_balances(after_ops(state, ops.drop_last()), ops.last().0, ops.last().1);
    }
}

/// The books of a new cache are balanced.
pub proof fn law_new_cache_is_balanced(ttl: int, max_entries: int, max_request_bytes: int)
    ensures
        balanced(CacheState::empty(ttl, max_entries, max_request_bytes)),
{
}

/// Whether an operation hands in a response under `key`.
pub open spec fn puts(op: Op, key: CacheKey) -> bool {
    op matches Op::Put { key: k, .. } && k == key
}

proof fn lemma_lasts(state: CacheState, key: CacheKey, stored: StoredResponse, ops: Seq<(Op, int)>)
    requires
        state.entries.contains_key(key),
        state.entries[key] == stored,
        forall|i: int|
            0 <= i < ops.len() ==> !((#[trigger] ops[i]).0 is Put) && elapsed(
                stored.stored_at,
                ops[i].1,
            ) <= state.ttl,
    ensures
        after_ops(state, ops).entries.contains_key(key),
        after_ops(state, ops).entries[key] == stored,
        after_ops(state, ops).ttl == state.ttl,
    decreases ops.len(),
{
    if ops.len() > 0 {
        let rest = ops.drop_last();
        assert forall|i: int| 0 <= i < rest.len() implies !((#[trigger] rest[i]).0 is Put)
            && elapsed(stored.stored_at, rest[i].1) <= state.ttl by {
            assert(rest[i] == ops[i]);
        }
        lemma_lasts(state, key, stored, rest);
        assert(ops.last() == ops[ops.len() - 1]);
    }
}

/// A response that was stored comes back whole until its time to live is over, whatever is looked
/// up and counted in between, under whatever keys.
pub proof fn law_stored_response_lasts(
    state: CacheState,
    key: CacheKey,
    response: Json,
    request_bytes: int,
    stored_at: int,
    ops: Seq<(Op, int)>,
    now: int,
)
    requires
        state.max_entries > 0,
        request_bytes <= state.max_request_bytes,
        forall|i: int|
            0 <= i < ops.len() ==> !((#[trigger] ops[i]).0 is Put) && stored_at <= ops[i].1 <= now,
        elapsed(stored_at, now) <= state.ttl,
    ensures
        after_ops(state.after_put(key, response, request_bytes, stored_at), ops).found(key, now)
            == Some(response),
{
    let start = state.after_put(key, response, request_bytes, stored_at);
    lemma_lasts(start, key, StoredResponse { response, stored_at }, ops);
}

/// The keys other than `key` that the operations make the ones that were used last: those under
/// which a response is handed in, and those that are looked up with success.
pub open spec fn used(state: CacheState, ops: Seq<(Op, int)>, key: CacheKey) -> Set<CacheKey>
    decreases ops.len(),
{
    if ops.len() == 0 {
        Set::empty()
    } else {
        let before = used(state, ops.drop_last(), key);
        match ops.last().0 {
            Op::Put { key: k, .. } => if k != key {
                before.insert(k)
            } else {
                before
            },
            Op::Get(k) => if k != key && after_ops(state, ops.drop_last()).is_live(
                k,
                ops.last().1,
            ) {
                before.insert(k)
            } else {
                before
            },
            Op::Record { .. } => before,
        }
    }
}

proof fn lemma_used_finite(state: CacheState, ops: Seq<(Op, int)>, key: CacheKey)
    ensures
        used(state, ops, key).finite(),
        ops.len() > 0 ==> used(state, ops.drop_last(), key).subset_of(used(state, ops, key)),
    decreases ops.len(),
{
    if ops.len() > 0 {
        lemma_used_finite(state, ops.drop_last(), key);
    }
}

/// Whether `order` is `before`, then `key`, then `after`.
spec fn splits(
    order: Seq<CacheKey>,
    key: CacheKey,
    before: Seq<CacheKey>,
    after: Seq<CacheKey>,
) -> bool {
    order == before.push(key) + after
}

/// Whether `key` has a place in the order, and every key that was used after it is among `later`.
spec fn recent(order: Seq<CacheKey>, key: CacheKey, later: Set<CacheKey>) -> bool {
    exists|before: Seq<CacheKey>, after: Seq<CacheKey>| #[trigger]
        splits(order, key, before, after) && after.to_set().subset_of(later)
}

pub proof fn lemma_without_concat(a: Seq<CacheKey>, b: Seq<CacheKey>, k: CacheKey)
    ensures
        without(a + b, k) == without(a, k) + without(b, k),
    decreases b.len(),
{
    reveal(Seq::filter);
    if b.len() == 0 {
        assert(a + b =~= a);
    } else {
        assert((a + b).drop_last() =~= a + b.drop_last());
        lemma_without_concat(a, b.drop_last(), k);
    }
    assert(without(a + b, k) =~= without(a, k) + without(b, k));
}

proof fn lemma_recent_without(
    order: Seq<CacheKey>,
    key: CacheKey,
    later: Set<CacheKey>,
    k: CacheKey,
)
    requires
        recent(order, key, later),
        k != key,
    ensures
        recent(without(order, k), key, later),
        recent(without(order, k).push(k), key, later.insert(k)),
{
    let (before, after) = choose|before: Seq<CacheKey>, after: Seq<CacheKey>| #[trigger]
        splits(order, key, before, after) && after.to_set().subset_of(later);
    lemma_without_concat(before.push(key), after, k);
    assert(without(before.push(key), k) =~= without(before, k).push(key)) by {
        reveal(Seq::filter);
        assert(before.push(key).drop_last() =~= before);
    }
    let b = without(before, k);
    let a = without(after, k);
    lemma_without(after, k);
    assert(splits(without(order, k), key, b, a));
    assert forall|x: CacheKey| #[trigger] a.to_set().contains(x) implies later.contains(x) by {
        assert(without(after, k).contains(x));
        assert(after.to_set().contains(x));
    }
    assert(a.to_set().subset_of(later));
    let more = a.push(k);
    assert(splits(without(order, k).push(k), key, b, more)) by {
        assert(without(order, k).push(k) =~= b.push(key) + more);
    }
    assert forall|x: CacheKey| #[trigger] more.to_set().contains(x) implies later.insert(
        k,
    ).contains(x) by {
        if x != k {
            let i = choose|i: int| 0 <= i < more.len() && more[i] == x;
            assert(a[i] == x);
            assert(a.to_set().contains(x));
        }
    }
    assert(more.to_set().subset_of(later.insert(k)));
}

proof fn lemma_recent_last(order: Seq<CacheKey>, key: CacheKey, later: Set<CacheKey>)
    ensures
        recent(order.push(key), key, later),
{
    assert(order.push(key) + Seq::<CacheKey>::empty() =~= order.push(key));
    assert(splits(order.push(key), key, order, Seq::empty()));
    assert(Seq::<CacheKey>::empty().to_set().subset_of(later));
}

proof fn lemma_recent_grows(
    order: Seq<CacheKey>,
    key: CacheKey,
    later: Set<CacheKey>,
    more: Set<CacheKey>,
)
    requires
        recent(order, key, later),
        later.subset_of(more),
    ensures
        recent(order, key, more),
{
    let (before, after) = choose|before: Seq<CacheKey>, after: Seq<CacheKey>| #[trigger]
        splits(order, key, before, after) && after.to_set().subset_of(later);
    assert(splits(order, key, before, after) && after.to_set().subset_of(more));
}

/// A new key does not push out `key`, as long as there are fewer than `max_entries` keys that were
/// used after it, the new one counted.
proof fn lemma_recent_survives(
    state: CacheState,
    key: CacheKey,
    later: Set<CacheKey>,
    new_key: CacheKey,
)
    requires
        state.valid(),
        recent(state.order, key, later),
        !state.entries.contains_key(new_key),
        later.finite(),
        later.insert(new_key).len() < state.max_entries,
    ensures
        recent(state.evicted().order, key, later),
        !state.order.take(state.overflow()).contains(key),
{
    let (before, after) = choose|before: Seq<CacheKey>, after: Seq<CacheKey>| #[trigger]
        splits(state.order, key, before, after) && after.to_set().subset_of(later);
    let n = state.overflow();
    lemma_member(state, new_key);
    assert(state.order[before.len() as int] == key);
    if n > before.len() {
        assert(before.len() == 0 && n == 1);
        assert forall|i: int, j: int| 0 <= i < j < after.len() implies after[i] != after[j] by {
            assert(state.order[i + 1] == after[i] && state.order[j + 1] == after[j]);
        }
        after.unique_seq_to_set();
        assert(!after.to_set().contains(new_key)) by {
            if after.contains(new_key) {
                let i = choose|i: int| 0 <= i < after.len() && after[i] == new_key;
                assert(state.order[i + 1] == new_key);
            }
        }
        vstd::set_lib::lemma_len_subset(after.to_set().insert(new_key), later.insert(new_key));
    }
    assert(splits(state.order.skip(n), key, before.skip(n), after)) by {
        assert(state.order.skip(n) =~= before.skip(n).push(key) + after);
    }
    let gone = state.order.take(n);
    if gone.contains(key) {
        let i = choose|i: int| 0 <= i < gone.len() && gone[i] == key;
        assert(state.order[i] == state.order[before.len() as int]);
    }
}

proof fn lemma_stays(state: CacheState, key: CacheKey, stored: StoredResponse, ops: Seq<(Op, int)>)
    requires
        state.valid(),
        state.entries.contains_key(key),
        state.entries[key] == stored,
        state.order.last() == key,
        used(state, ops, key).len() < state.max_entries,
        forall|i: int|
            0 <= i < ops.len() ==> !puts((#[trigger] ops[i]).0, key) && elapsed(
                stored.stored_at,
                ops[i].1,
            ) <= state.ttl,
    ensures
        after_ops(state, ops).entries.contains_key(key),
        after_ops(state, ops).entries[key] == stored,
        recent(after_ops(state, ops).order, key, used(state, ops, key)),
    decreases ops.len(),
{
    lemma_used_finite(state, ops, key);
    if ops.len() == 0 {
        lemma_member(state, key);
        assert(state.order =~= state.order.drop_last().push(key));
        lemma_recent_last(state.order.drop_last(), key, used(state, ops, key));
    } else {
        let rest = ops.drop_last();
        let now = ops.last().1;
        assert forall|i: int| 0 <= i < rest.len() implies !puts((#[trigger] rest[i]).0, key)
            && elapsed(stored.stored_at, rest[i].1) <= state.ttl by {
            assert(rest[i] == ops[i]);
        }
        lemma_used_finite(state, rest, key);
        vstd::set_lib::lemma_len_subset(used(state, rest, key), used(state, ops, key));
        lemma_stays(state, key, stored, rest);
        law_history_keeps_valid(state, rest);
        assert(ops.last() == ops[ops.len() - 1]);
        let before = after_ops(state, rest);
        let later = used(state, rest, key);
        assert(before.is_live(key, now));
        match ops.last().0 {
            Op::Get(k) => {
                if k == key {
                    lemma_recent_last(without(before.order, key), key, later);
                } else {
                    lemma_recent_without(before.order, key, later, k);
                }
            },
            Op::Put { key: k, response, request_bytes } => {
                lemma_recent_grows(before.order, key, later, later.insert(k));
                if request_bytes <= before.max_request_bytes {
                    if before.entries.contains_key(k) {
                        lemma_recent_without(before.order, key, later, k);
                    } else {
                        lemma_recent_survives(before, key, later, k);
                        lemma_recent_without(before.evicted().order, key, later, k);
                        assert(before.evicted().entries.contains_key(key));
                    }
                }
            },
            Op::Record { key: k, hash } => {
                if k != key {
                    lemma_recent_without(before.order, key, later, k);
                }
            },
        }
    }
}

/// A response that was stored comes back whole until its time to live is over, also where other
/// responses are stored in between, as long as fewer than `max_entries` other keys are used since.
pub proof fn law_stored_response_outlasts_others(
    state: CacheState,
    key: CacheKey,
    response: Json,
    request_bytes: int,
    stored_at: int,
    ops: Seq<(Op, int)>,
    now: int,
)
    requires
        state.valid(),
        request_bytes <= state.max_request_bytes,
        used(state.after_put(key, response, request_bytes, stored_at), ops, key).len()
            < state.max_entries,
        forall|i: int|
            0 <= i < ops.len() ==> !puts((#[trigger] ops[i]).0, key) && stored_at <= ops[i].1
                <= now,
        elapsed(stored_at, now) <= state.ttl,
    ensures
        after_ops(state.after_put(key, response, request_bytes, stored_at), ops).found(key, now)
            == Some(response),
{
    let start = state.after_put(key, response, request_bytes, stored_at);
    law_put_keeps_valid(state, key, response, request_bytes, stored_at);
    lemma_stays(start, key, StoredResponse { response, stored_at }, ops);
    law_history_keeps_valid(start, ops);
}

/// The same from a lookup on that found the response: a response that is used stays.
pub proof fn law_used_response_outlasts_others(
    state: CacheState,
    key: CacheKey,
    looked_up: int,
    ops: Seq<(Op, int)>,
    now: int,
)
    requires
        state.valid(),
        state.is_live(key, looked_up),
        used(state.after_get(key, looked_up), ops, key).len() < state.max_entries,
        forall|i: int|
            0 <= i < ops.len() ==> !puts((#[trigger] ops[i]).0, key) && ops[i].1 <= now,
        elapsed(state.entries[key].stored_at, now) <= state.ttl,
    ensures
        after_ops(state.after_get(key, looked_up), ops).found(key, now) == Some(
            state.entries[key].response,
        ),
{
    let start = state.after_get(key, looked_up);
    law_get_keeps_valid(state, key, looked_up);
    lemma_stays(start, key, state.entries[key], ops);
    law_history_keeps_valid(start, ops);
}

/// The fingerprints of the responses that are counted for `key`, in their order.
pub open spec fn counted_for(ops: Seq<(Op, int)>, key: CacheKey) -> Seq<u64>
    decreases ops.len(),
{
    if ops.len() == 0 {
        Seq::empty()
    } else {
        let before = counted_for(ops.drop_last(), key);
        match ops.last().0 {
            Op::Record { key: k, hash } => if k == key {
                before.push(hash)
            } else {
                before
            },
            _ => before,
        }
    }
}

/// Whether some `length` of the fingerprints, one after the other, are the same.
pub open spec fn has_run(hashes: Seq<u64>, length: int) -> bool {
    exists|i: int| #[trigger] is_run(hashes, i, length)
}

/// Whether the `length` fingerprints from `i` on are the same.
pub open spec fn is_run(hashes: Seq<u64>, i: int, length: int) -> bool {
    &&& 0 <= i
    &&& i + length <= hashes.len()
    &&& forall|j: int| i <= j < i + length ==> #[trigger] hashes[j] == hashes[i]
}

/// How many fingerprints at the end are the same.
spec fn tail_run(hashes: Seq<u64>) -> int
    decreases hashes.len(),
{
    if hashes.len() == 0 {
        0
    } else if hashes.len() > 1 && hashes[hashes.len() - 2] == hashes.last() {
        tail_run(hashes.drop_last()) + 1
    } else {
        1
    }
}

proof fn lemma_tail_run(hashes: Seq<u64>)
    requires
        hashes.len() > 0,
    ensures
        1 <= tail_run(hashes) <= hashes.len(),
        forall|j: int|
            hashes.len() - tail_run(hashes) <= j < hashes.len() ==> #[trigger] hashes[j]
                == hashes.last(),
        tail_run(hashes) < hashes.len() ==> hashes[hashes.len() - tail_run(hashes) - 1]
            != hashes.last(),
    decreases hashes.len(),
{
    if hashes.len() > 1 && hashes[hashes.len() - 2] == hashes.last() {
        let rest = hashes.drop_last();
        lemma_tail_run(rest);
        assert forall|j: int| hashes.len() - tail_run(hashes) <= j < hashes.len() implies
            #[trigger] hashes[j] == hashes.last() by {
            if j < hashes.len() - 1 {
                assert(rest[j] == hashes[j]);
            }
        }
    }
}

proof fn lemma_run_grows(hashes: Seq<u64>, hash: u64, length: int)
    requires
        length > 0,
    ensures
        has_run(hashes.push(hash), length) <==> has_run(hashes, length) || tail_run(
            hashes.push(hash),
        ) >= length,
{
    let more = hashes.push(hash);
    lemma_tail_run(more);
    if has_run(hashes, length) {
        let i = choose|i: int| #[trigger] is_run(hashes, i, length);
        assert(is_run(more, i, length));
    }
    if tail_run(more) >= length {
        assert(is_run(more, more.len() - length, length));
    }
    if has_run(more, length) {
        let i = choose|i: int| #[trigger] is_run(more, i, length);
        if i + length <= hashes.len() {
            assert forall|j: int| i <= j < i + length implies #[trigger] hashes[j] == hashes[i] by {
                assert(more[j] == more[i]);
            }
            assert(is_run(hashes, i, length));
        } else if tail_run(more) < length {
            let j = more.len() - tail_run(more) - 1;
            assert(more[j] == more[i]);
            assert(more[more.len() - 1] == more[i]);
        }
    }
}

/// What the warm-up knows of `key` when the responses with these fingerprints have been counted.
spec fn knows(state: CacheState, key: CacheKey, hashes: Seq<u64>, first: int) -> bool {
    if hashes.len() == 0 {
        !state.occurrences.contains_key(key)
    } else {
        let seen = state.occurrences[key];
        &&& state.occurrences.contains_key(key)
        &&& first <= seen.first_seen <= first + state.warmup_window
        &&& seen.warmed_up == has_run(hashes, state.min_hit_count)
        &&& !seen.warmed_up ==> seen.count == tail_run(hashes) && seen.response_hash
            == hashes.last()
    }
}

/// Whether the operation at `i` falls into the window that begins at `first`, and, if it counts a
/// response for `key`, the table of sightings can take it and nothing is served under the key.
pub open spec fn watched(
    state: CacheState,
    ops: Seq<(Op, int)>,
    key: CacheKey,
    first: int,
    i: int,
) -> bool {
    let before = after_ops(state, ops.take(i));
    let now = ops[i].1;
    &&& first <= now <= first + state.warmup_window
    &&& (ops[i].0 matches Op::Record { key: k, .. } && k == key) ==> {
        &&& has_room(before, key, now)
        &&& !before.is_live(key, now)
    }
}

proof fn lemma_knows(state: CacheState, ops: Seq<(Op, int)>, key: CacheKey, first: int)
    requires
        state.min_hit_count > 0,
        !state.occurrences.contains_key(key),
        forall|i: int| 0 <= i < ops.len() ==> watched(state, ops, key, first, i),
    ensures
        knows(after_ops(state, ops), key, counted_for(ops, key), first),
        after_ops(state, ops).min_hit_count == state.min_hit_count,
        after_ops(state, ops).warmup_window == state.warmup_window,
    decreases ops.len(),
{
    if ops.len() > 0 {
        let rest = ops.drop_last();
        let n = ops.len() - 1;
        assert forall|i: int| 0 <= i < rest.len() implies watched(state, rest, key, first, i) by {
            assert(watched(state, ops, key, first, i));
            assert(rest.take(i) =~= ops.take(i));
        }
        lemma_knows(state, rest, key, first);
        assert(watched(state, ops, key, first, n));
        assert(ops.take(n) =~= rest);
        lemma_counted(
            after_ops(state, rest),
            ops.last().0,
            key,
            counted_for(rest, key),
            first,
            ops.last().1,
        );
    }
}

proof fn lemma_counted(
    state: CacheState,
    op: Op,
    key: CacheKey,
    hashes: Seq<u64>,
    first: int,
    now: int,
)
    requires
        state.min_hit_count > 0,
        knows(state, key, hashes, first),
        first <= now <= first + state.warmup_window,
        (op matches Op::Record { key: k, .. } && k == key) ==> has_room(state, key, now)
            && !state.is_live(key, now),
    ensures
        ({
            let after = after_op(state, op, now);
            &&& after.min_hit_count == state.min_hit_count
            &&& after.warmup_window == state.warmup_window
            &&& match op {
                Op::Record { key: k, hash } => if k == key {
                    &&& knows(after, key, hashes.push(hash), first)
                    &&& state.reaches(key, hash, now) == has_run(
                        hashes.push(hash),
                        state.min_hit_count,
                    )
                } else {
                    knows(after, key, hashes, first)
                },
                _ => knows(after, key, hashes, first),
            }
        }),
{
    if let Op::Record { key: k, hash } = op {
        if k == key {
            let more = hashes.push(hash);
            lemma_run_grows(hashes, hash, state.min_hit_count);
            lemma_tail_run(more);
            assert(more.drop_last() =~= hashes);
            if hashes.len() == 0 {
                assert(!has_run(hashes, state.min_hit_count));
            } else {
                lemma_tail_run(hashes);
                assert(more[more.len() - 2] == hashes.last());
            }
        }
    }
}

/// When the threshold is reached: whatever else is done to the cache, and whatever responses come
/// back for a key that was not counted before, a response reaches the threshold if and only if
/// some `min_hit_count` of the responses for the key so far, one after the other, were the same. So
/// once it is reached, every later response reaches it. (All within the window; the key is not
/// served yet; and the table of sightings can take it.)
pub proof fn law_threshold_is_a_run_of_equal_responses(
    state: CacheState,
    ops: Seq<(Op, int)>,
    key: CacheKey,
    hash: u64,
    now: int,
    first: int,
)
    requires
        state.min_hit_count > 0,
        !state.occurrences.contains_key(key),
        forall|i: int| 0 <= i < ops.len() ==> watched(state, ops, key, first, i),
        first <= now <= first + state.warmup_window,
        has_room(after_ops(state, ops), key, now),
        !after_ops(state, ops).is_live(key, now),
    ensures
        after_ops(state, ops).reaches(key, hash, now) <==> has_run(
            counted_for(ops, key).push(hash),
            state.min_hit_count,
        ),
{
    lemma_knows(state, ops, key, first);
    lemma_counted(
        after_ops(state, ops),
        Op::Record { key, hash },
        key,
        counted_for(ops, key),
        first,
        now,
    );
}

} // verus!

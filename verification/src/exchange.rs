//! One exchange with a client: what to do about a request, and what follows from the answer.

use vstd::prelude::*;

use crate::cache::{ResponseCache, NANOS_PER_SEC};
use crate::cache_laws::law_counters_fit;
use crate::cache_model::{elapsed, CacheState};
use crate::canonical::response_fingerprint;
use crate::chat::{
    force_stream, message_count, parse_request, read_request, requested_model, streaming,
    wants_stream, RequestInfo,
};
use crate::config::Config;
use crate::gate::{
    after_answer, after_serve, note_answer_at, request_key, request_key_of, serve_at, served,
};
use crate::interop::json_parse_bytes;
use crate::json::{Json, JsonValue};
use crate::key::{cache_key, CacheKey};

verus! {

/// What to do about a request.
pub enum Step {
    /// The body is no JSON: answer with this message.
    Refuse(String),
    /// The body is JSON, but it cannot be made to ask for a stream.
    Misfit,
    /// Answer with this response, which comes from the cache.
    Serve {
        response: JsonValue,
        /// The key under which it was cached.
        key: CacheKey,
    },
    /// Send this request to the upstream, and forward the stream that comes back.
    Forward(JsonValue),
    /// Send this request to the upstream, and collect the stream that comes back.
    Collect {
        request: JsonValue,
        /// Under which key the answer is cached, if it is.
        key: Option<CacheKey>,
        /// The model that the client asked for.
        model: String,
    },
}

/// What to do about a request that is JSON.
pub ghost enum Plan {
    Serve { response: Json, key: CacheKey },
    Forward(Json),
    Collect { request: Json, key: Option<CacheKey>, model: Seq<char> },
}

impl Step {
    /// The plan that a step follows.
    pub open spec fn plan(self) -> Option<Plan> {
        match self {
            Step::Refuse(_) => None,
            Step::Misfit => None,
            Step::Serve { response, key } => Some(Plan::Serve { response: response@, key }),
            Step::Forward(request) => Some(Plan::Forward(request@)),
            Step::Collect { request, key, model } => Some(
                Plan::Collect { request: request@, key, model: model@ },
            ),
        }
    }
}

/// Whether a request can be made to ask for a stream.
pub open spec fn fits(request: Json) -> bool {
    request is Object || request is Null
}

/// What to do about a request: serve it from the cache if that is possible, else send it to the
/// upstream, which is always asked for a stream.
pub open spec fn plan(state: CacheState, enabled: bool, request: Json, now: int) -> Plan {
    let key = request_key_of(enabled, wants_stream(request), request);
    if key is Some && served(state, key->0, now) is Some {
        Plan::Serve { response: served(state, key->0, now)->0, key: key->0 }
    } else if wants_stream(request) {
        Plan::Forward(streaming(request))
    } else {
        Plan::Collect { request: streaming(request), key, model: requested_model(request) }
    }
}

/// The state of the cache once it is known what to do.
pub open spec fn after_begin(
    state: CacheState,
    enabled: bool,
    request: Json,
    now: int,
) -> CacheState {
    match request_key_of(enabled, wants_stream(request), request) {
        Some(key) => after_serve(state, key, now),
        None => state,
    }
}

/// The state of the cache after an answer from the upstream.
pub open spec fn after_conclude(
    state: CacheState,
    key: Option<CacheKey>,
    response: Json,
    request_bytes: int,
    now: int,
) -> CacheState {
    match key {
        Some(key) => after_answer(state, key, response, request_bytes, now),
        None => state,
    }
}

/// What to do about the request `data` at the time `now`.
pub fn begin_parsed_at(
    cache: &mut ResponseCache,
    enabled: bool,
    data: JsonValue,
    now: u128,
) -> (r: Step)
    requires
        old(cache)@.valid(),
        fits(data@),
        after_begin(old(cache)@, enabled, data@, now as int).counters_fit(),
    ensures
        r.plan() == Some(plan(old(cache)@, enabled, data@, now as int)),
        final(cache)@ == after_begin(old(cache)@, enabled, data@, now as int),
        final(cache)@.valid(),
        final(cache).time_keeper() == old(cache).time_keeper(),
{
    let mut request = data;
    let info = read_request(&request);
    let key = request_key(enabled, info.stream, &request);
    if let Some(key) = key {
        if let Some(response) = serve_at(cache, key, now) {
            return Step::Serve { response, key };
        }
    }
    force_stream(&mut request);
    if info.stream {
        Step::Forward(request)
    } else {
        Step::Collect { request, key, model: info.model }
    }
}

/// Whether `info` says what `request` asks for.
pub open spec fn describes(info: RequestInfo, request: Json) -> bool {
    &&& info.model@ == requested_model(request)
    &&& info.stream == wants_stream(request)
    &&& info.message_count == message_count(request)
}

/// Whether `info` says what the request that a body holds asks for, `step` is what to do about it,
/// and `after` the state of the cache then. A body that is no JSON, or cannot be made to ask for a
/// stream, leaves the cache alone.
pub open spec fn began(
    before: CacheState,
    enabled: bool,
    body: Seq<u8>,
    now: int,
    info: Option<RequestInfo>,
    step: Step,
    after: CacheState,
) -> bool {
    match json_parse_bytes(body) {
        Ok(request) => {
            &&& info is Some
            &&& describes(info->0, request)
            &&& if fits(request) {
                &&& step.plan() == Some(plan(before, enabled, request, now))
                &&& after == after_begin(before, enabled, request, now)
            } else {
                &&& step is Misfit
                &&& after == before
            }
        },
        Err(error) => {
            &&& info is None
            &&& step matches Step::Refuse(message)
            &&& message@ == "Invalid JSON: "@ + error
            &&& after == before
        },
    }
}

/// What the request that a body holds asks for, if it is a request, and what to do about it at the
/// time `now`.
pub fn begin_at(cache: &mut ResponseCache, enabled: bool, body: &[u8], now: u128) -> (r: (
    Option<RequestInfo>,
    Step,
))
    requires
        old(cache)@.valid(),
        old(cache)@.can_count(),
    ensures
        began(old(cache)@, enabled, body@, now as int, r.0, r.1, final(cache)@),
        final(cache)@.valid(),
        final(cache).time_keeper() == old(cache).time_keeper(),
{
    match parse_request(body) {
        Ok(data) => {
            let fit = match &data {
                JsonValue::Object(_) => true,
                JsonValue::Null => true,
                _ => false,
            };
            let info = read_request(&data);
            if !fit {
                return (Some(info), Step::Misfit);
            }
            proof {
                if let Some(key) = request_key_of(enabled, wants_stream(data@), data@) {
                    law_counters_fit(cache@, key, 0, data@, 0, now as int);
                }
            }
            let step = begin_parsed_at(cache, enabled, data, now);
            (Some(info), step)
        },
        Err(message) => (None, Step::Refuse(message)),
    }
}

/// What the request that a body holds asks for, if it is a request, and what to do about it.
pub fn begin(cache: &mut ResponseCache, enabled: bool, body: &[u8]) -> (r: (
    Option<RequestInfo>,
    Step,
))
    requires
        old(cache)@.valid(),
        old(cache)@.can_count(),
    ensures
        exists|at: std::time::Instant|
            began(
                old(cache)@,
                enabled,
                body@,
                #[trigger] old(cache).time_keeper().shown_at(at) as int,
                r.0,
                r.1,
                final(cache)@,
            ),
        final(cache)@.valid(),
        final(cache).time_keeper() == old(cache).time_keeper(),
{
    let now = cache.now();
    begin_at(cache, enabled, body, now)
}

/// Takes note of an answer to a request of `request_bytes` bytes, at the time `now`. Whether it
/// was handed to the cache.
pub fn conclude_at(
    cache: &mut ResponseCache,
    key: Option<CacheKey>,
    response: &JsonValue,
    request_bytes: usize,
    now: u128,
) -> (r: bool)
    requires
        old(cache)@.valid(),
        after_conclude(
            old(cache)@,
            key,
            response@,
            request_bytes as int,
            now as int,
        ).counters_fit(),
    ensures
        r == (key is Some && old(cache)@.reaches(
            key->0,
            response_fingerprint(response@),
            now as int,
        )),
        final(cache)@ == after_conclude(
            old(cache)@,
            key,
            response@,
            request_bytes as int,
            now as int,
        ),
        final(cache)@.valid(),
        final(cache).time_keeper() == old(cache).time_keeper(),
{
    match key {
        Some(key) => note_answer_at(cache, key, response, request_bytes, now),
        None => false,
    }
}

/// Takes note of an answer to a request of `request_bytes` bytes. Whether it was handed to the
/// cache.
pub fn conclude(
    cache: &mut ResponseCache,
    key: Option<CacheKey>,
    response: &JsonValue,
    request_bytes: usize,
) -> (r: bool)
    requires
        old(cache)@.valid(),
        old(cache)@.can_count(),
    ensures
        exists|at: std::time::Instant|
            ({
                let now = #[trigger] old(cache).time_keeper().shown_at(at) as int;
                &&& r == (key is Some && old(cache)@.reaches(
                    key->0,
                    response_fingerprint(response@),
                    now,
                ))
                &&& final(cache)@ == after_conclude(
                    old(cache)@,
                    key,
                    response@,
                    request_bytes as int,
                    now,
                )
            }),
        final(cache)@.valid(),
        final(cache).time_keeper() == old(cache).time_keeper(),
{
    let now = cache.now();
    proof {
        if let Some(key) = key {
            law_counters_fit(
                cache@,
                key,
                response_fingerprint(response@),
                response@,
                request_bytes as int,
                now as int,
            );
        }
    }
    conclude_at(cache, key, response, request_bytes, now)
}

/// The cache that a configuration asks for. Without a threshold there is no warm-up.
pub fn configured_cache(config: &Config) -> (r: ResponseCache)
    ensures
        ({
            let bare = CacheState::empty(
                config.cache_ttl_secs * NANOS_PER_SEC,
                config.cache_max_entries as int,
                config.cache_max_request_bytes as int,
            );
            r@ == if config.cache_min_hit_count == 0 {
                bare
            } else {
                CacheState {
                    min_hit_count: config.cache_min_hit_count as int,
                    warmup_window: config.cache_warmup_window_secs * NANOS_PER_SEC,
                    ..bare
                }
            }
        }),
        r@.valid(),
{
    let cache = ResponseCache::new(
        config.cache_ttl_secs,
        config.cache_max_entries,
        config.cache_max_request_bytes,
    );
    if config.cache_min_hit_count > 0 {
        let window: u128 = config.cache_warmup_window_secs as u128 * NANOS_PER_SEC as u128;
        cache.with_warmup_nanos(config.cache_min_hit_count, window)
    } else {
        cache
    }
}

/// A request for a stream is forwarded, whatever the cache holds, and the cache is left alone.
pub proof fn law_streams_bypass_the_cache(
    state: CacheState,
    enabled: bool,
    request: Json,
    now: int,
)
    requires
        wants_stream(request),
    ensures
        plan(state, enabled, request, now) == Plan::Forward(streaming(request)),
        after_begin(state, enabled, request, now) == state,
{
}

/// Where caching is off, nothing is served from the cache, nothing is to be stored, and the cache
/// is left alone.
pub proof fn law_disabled_cache_is_left_alone(
    state: CacheState,
    request: Json,
    response: Json,
    request_bytes: int,
    now: int,
    later: int,
)
    ensures
        after_begin(state, false, request, now) == state,
        !(plan(state, false, request, now) is Serve),
        plan(state, false, request, now) matches Plan::Collect { key, .. } ==> after_conclude(
            state,
            key,
            response,
            request_bytes,
            later,
        ) == state,
{
}

/// The upstream is always asked for a stream, whatever the client asked for, and apart from that
/// for what the client asked for.
pub proof fn law_upstream_is_asked_for_a_stream(
    state: CacheState,
    enabled: bool,
    request: Json,
    now: int,
    name: Seq<char>,
)
    requires
        fits(request),
        name != "stream"@,
    ensures
        ({
            let sent = match plan(state, enabled, request, now) {
                Plan::Serve { .. } => streaming(request),
                Plan::Forward(sent) => sent,
                Plan::Collect { request: sent, .. } => sent,
            };
            &&& wants_stream(sent)
            &&& sent.field(name) == request.field(name)
        }),
{
}

/// Two requests under one key are answered alike from the cache.
pub proof fn law_same_key_same_answer(
    state: CacheState,
    enabled: bool,
    a: Json,
    b: Json,
    now: int,
)
    requires
        cache_key(a) == cache_key(b),
        !wants_stream(a),
        !wants_stream(b),
        plan(state, enabled, a, now) is Serve,
    ensures
        plan(state, enabled, b, now) == plan(state, enabled, a, now),
        after_begin(state, enabled, b, now) == after_begin(state, enabled, a, now),
{
}

/// An answer that has come back often enough is what the same request is served from then on,
/// while its time to live lasts.
pub proof fn law_stored_answer_is_served(
    state: CacheState,
    request: Json,
    response: Json,
    request_bytes: int,
    now: int,
    later: int,
)
    requires
        state.valid(),
        !wants_stream(request),
        cache_key(request) is Some,
        state.reaches(cache_key(request)->0, response_fingerprint(response), now),
        state.max_entries > 0,
        request_bytes <= state.max_request_bytes,
        elapsed(now, later) <= state.ttl,
    ensures
        plan(
            after_conclude(state, cache_key(request), response, request_bytes, now),
            true,
            request,
            later,
        ) == (Plan::Serve { response, key: cache_key(request)->0 }),
{
}

} // verus!

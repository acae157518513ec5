//! Chat completions: what a request asks for, and what is answered.

use vstd::prelude::*;
use vstd::string::*;
use vstd::utf8::*;

use crate::cache::CacheStats;
use crate::ids::{completion_id, unix_seconds};
use crate::interop::{from_bytes, json_parse_bytes, json_text, to_text};
use crate::json::{jsons, lemma_array_view, opt_chars, Json, JsonValue, Object};
use crate::mask::{law_ascii_key_is_masked, mask_key, maskable, masked};
use crate::number::{from_i64, from_u64, number_of, number_of_signed};
use crate::text::{has_prefix, strip_prefix};
use crate::usage::{apply_cache_hit_discount, reported_usage, usage_or_empty, with_cached_tokens};

verus! {

/// The size of the largest request that is read: 64 MiB.
pub const MAX_BODY_SIZE: usize = 67_108_864;

/// What a request asks for.
pub struct RequestInfo {
    pub model: String,
    pub stream: bool,
    pub message_count: usize,
}

/// The model that a request names.
pub open spec fn requested_model(request: Json) -> Seq<char> {
    match request.field("model"@) {
        Some(Json::Str(model)) => model,
        _ => "(unknown)"@,
    }
}

/// Whether a request asks for a stream.
pub open spec fn wants_stream(request: Json) -> bool {
    request.field("stream"@) == Some(Json::Bool(true))
}

/// How many messages a request holds.
pub open spec fn message_count(request: Json) -> nat {
    match request.field("messages"@) {
        Some(Json::Array(messages)) => messages.len(),
        _ => 0,
    }
}

/// What a request asks for.
pub fn read_request(data: &JsonValue) -> (r: RequestInfo)
    ensures
        r.model@ == requested_model(data@),
        r.stream == wants_stream(data@),
        r.message_count == message_count(data@),
{
    let model = match data.get("model") {
        Some(JsonValue::Str(model)) => model.clone(),
        _ => "(unknown)".to_owned(),
    };
    let stream = match data.get("stream") {
        Some(JsonValue::Bool(b)) => *b,
        _ => false,
    };
    let message_count = match data.get("messages") {
        Some(messages) => match messages.as_array() {
            Some(items) => items.len(),
            None => 0,
        },
        None => 0,
    };
    RequestInfo { model, stream, message_count }
}

/// The request that a body holds, or what to tell the client about it.
pub fn parse_request(body: &[u8]) -> (r: Result<JsonValue, String>)
    ensures
        match (r, json_parse_bytes(body@)) {
            (Ok(data), Ok(json)) => data@ == json,
            (Err(message), Err(error)) => message@ == "Invalid JSON: "@ + error,
            _ => false,
        },
{
    match from_bytes(body) {
        Ok(data) => Ok(data),
        Err(error) => {
            let mut message = "Invalid JSON: ".to_owned();
            message.append(error.as_str());
            Err(message)
        },
    }
}

/// A request, made to ask for a stream.
pub open spec fn streaming(request: Json) -> Json {
    match request {
        Json::Object(map) => Json::Object(map.insert("stream"@, Json::Bool(true))),
        _ => Json::Object(Map::empty().insert("stream"@, Json::Bool(true))),
    }
}

/// Makes a request ask for a stream.
pub fn force_stream(data: &mut JsonValue)
    requires
        old(data)@ is Object || old(data)@ is Null,
    ensures
        final(data)@ == streaming(old(data)@),
{
    match data {
        JsonValue::Object(object) => {
            object.insert("stream", JsonValue::Bool(true));
        },
        _ => {
            let mut object = Object::new();
            object.insert("stream", JsonValue::Bool(true));
            *data = JsonValue::Object(object);
        },
    }
}

/// What follows the scheme `Bearer` in an `Authorization` header, however often it is repeated.
pub open spec fn bearer_key(header: Seq<char>) -> Seq<char>
    decreases header.len(),
{
    if has_prefix(header, "Bearer "@) && "Bearer "@.len() > 0 {
        bearer_key(header.skip("Bearer "@.len() as int))
    } else {
        header
    }
}

/// What the log shows of an `Authorization` header.
pub open spec fn auth_shown(header: Seq<char>) -> Seq<char> {
    if header.len() == 0 {
        "(none)"@
    } else {
        masked(bearer_key(header))
    }
}

/// What the log shows of an `Authorization` header.
pub fn auth_label(header: &str) -> (r: String)
    requires
        maskable(bearer_key(header@)),
    ensures
        r@ == auth_shown(header@),
{
    if header.is_empty() {
        return "(none)".to_owned();
    }
    proof {
        reveal_strlit("Bearer ");
    }
    let mut key = header;
    let mut more: bool = true;
    while more
        invariant
            "Bearer "@.len() == 7,
            bearer_key(key@) == bearer_key(header@),
            !more ==> !has_prefix(key@, "Bearer "@),
        decreases key@.len() + if more { 1int } else { 0 },
    {
        match strip_prefix(key, "Bearer ") {
            Some(rest) => {
                key = rest;
            },
            None => {
                more = false;
            },
        }
    }
    mask_key(key)
}

/// The `Authorization` header to send to the upstream: the client's own, unchanged. There is none
/// where the client sent none.
pub fn forwarded_auth(header: &str) -> (r: Option<&str>)
    ensures
        opt_chars(r) == if header@.len() == 0 {
            None
        } else {
            Some(header@)
        },
{
    if header.is_empty() {
        None
    } else {
        Some(header)
    }
}

/// What the log shows of a header of ASCII characters can always be made.
pub proof fn law_ascii_header_is_maskable(header: Seq<char>)
    requires
        is_ascii_chars(header),
    ensures
        maskable(bearer_key(header)),
    decreases header.len(),
{
    if has_prefix(header, "Bearer "@) && "Bearer "@.len() > 0 {
        law_ascii_header_is_maskable(header.skip("Bearer "@.len() as int));
    } else {
        law_ascii_key_is_masked(header);
    }
}

/// The body of an error response.
pub open spec fn error_json_of(message: Seq<char>, error_type: Seq<char>) -> Json {
    Json::Object(
        Map::empty().insert(
            "error"@,
            Json::Object(
                Map::empty().insert("message"@, Json::Str(message)).insert(
                    "type"@,
                    Json::Str(error_type),
                ),
            ),
        ),
    )
}

/// The body of an error response.
pub fn error_json(message: &str, error_type: &str) -> (r: JsonValue)
    ensures
        r@ == error_json_of(message@, error_type@),
{
    let mut detail = Object::new();
    detail.insert("message", JsonValue::Str(message.to_owned()));
    detail.insert("type", JsonValue::Str(error_type.to_owned()));
    let mut body = Object::new();
    body.insert("error", JsonValue::Object(detail));
    JsonValue::Object(body)
}

/// The message about an upstream that did not answer with success.
pub fn upstream_error_message(status: &str, body: &str) -> (r: String)
    ensures
        r@ == "Upstream error: "@ + status@ + " - "@ + body@,
{
    let mut message = "Upstream error: ".to_owned();
    message.append(status);
    message.append(" - ");
    message.append(body);
    message
}

/// The message about an upstream that could not be reached.
pub fn connect_error_message(error: &str) -> (r: String)
    ensures
        r@ == "Connection failed: "@ + error@,
{
    let mut message = "Connection failed: ".to_owned();
    message.append(error);
    message
}

/// The message about an answer that broke off.
pub fn read_error_message(error: &str) -> (r: String)
    ensures
        r@ == "Stream read error: "@ + error@,
{
    let mut message = "Stream read error: ".to_owned();
    message.append(error);
    message
}

/// The event that ends a stream.
pub open spec fn done_event() -> Seq<char> {
    "data: [DONE]\n\n"@
}

/// How a request to the upstream failed.
#[derive(Clone, Copy, Debug, PartialEq, Eq, Structural)]
pub enum UpstreamFailure {
    /// There was no connection.
    Connect,
    /// There was no answer in time.
    Timeout,
    /// Anything else.
    Other,
}

/// How a request to the upstream failed. Want of a connection counts before want of time.
pub fn classify_failure(is_connect: bool, is_timeout: bool) -> (r: UpstreamFailure)
    ensures
        r == if is_connect {
            UpstreamFailure::Connect
        } else if is_timeout {
            UpstreamFailure::Timeout
        } else {
            UpstreamFailure::Other
        },
{
    if is_connect {
        UpstreamFailure::Connect
    } else if is_timeout {
        UpstreamFailure::Timeout
    } else {
        UpstreamFailure::Other
    }
}

/// An event that reports an error. The message and the type are written into it as JSON strings.
pub open spec fn error_event_of(message: Seq<char>, error_type: Seq<char>) -> Seq<char> {
    "data: {\"error\": {\"message\": "@ + json_text(Json::Str(message)) + ", \"type\": "@
        + json_text(Json::Str(error_type)) + "}}\n\n"@
}

/// An event that reports an error.
pub fn error_event(message: &str, error_type: &str) -> (r: String)
    ensures
        r@ == error_event_of(message@, error_type@),
{
    let message_text = to_text(&JsonValue::Str(message.to_owned()));
    let type_text = to_text(&JsonValue::Str(error_type.to_owned()));
    let mut event = "data: {\"error\": {\"message\": ".to_owned();
    event.append(message_text.as_str());
    event.append(", \"type\": ");
    event.append(type_text.as_str());
    event.append("}}\n\n");
    event
}

/// The stream that is sent when a request to the upstream failed: an event that reports the error,
/// and the end.
pub open spec fn failed_stream_of(
    failure: UpstreamFailure,
    error_name: Seq<char>,
    error: Seq<char>,
) -> Seq<char> {
    let event = match failure {
        UpstreamFailure::Connect => error_event_of(
            "Connection failed: "@ + error,
            "connect_error"@,
        ),
        UpstreamFailure::Timeout => error_event_of("Read timeout from upstream"@, "timeout"@),
        UpstreamFailure::Other => error_event_of(error_name + ": "@ + error, "stream_error"@),
    };
    event + done_event()
}

/// The stream that is sent when a request to the upstream failed with `error`, an error of the
/// type `error_name`.
pub fn failed_stream(failure: UpstreamFailure, error_name: &str, error: &str) -> (r: String)
    ensures
        r@ == failed_stream_of(failure, error_name@, error@),
{
    let mut stream = match failure {
        UpstreamFailure::Connect => {
            let message = connect_error_message(error);
            error_event(message.as_str(), "connect_error")
        },
        UpstreamFailure::Timeout => error_event("Read timeout from upstream", "timeout"),
        UpstreamFailure::Other => {
            let mut message = error_name.to_owned();
            message.append(": ");
            message.append(error);
            error_event(message.as_str(), "stream_error")
        },
    };
    stream.append("data: [DONE]\n\n");
    stream
}

/// The events that are sent when a stream from the upstream breaks off: the error, and the end.
pub fn broken_stream(error: &str) -> (r: (String, String))
    ensures
        r.0@ == error_event_of("Stream error: "@ + error@, "stream_error"@),
        r.1@ == done_event(),
{
    let mut message = "Stream error: ".to_owned();
    message.append(error);
    (error_event(message.as_str(), "stream_error"), "data: [DONE]\n\n".to_owned())
}

/// The stream that is sent when the upstream did not answer with success: an event that reports
/// the status and the body, and the end.
pub fn refused_stream(status: &str, body: &str) -> (r: String)
    ensures
        r@ == "data: "@ + json_text(
            error_json_of(
                "Upstream error: "@ + status@ + " - "@ + body@,
                "upstream_error"@,
            ),
        ) + "\n\n"@ + done_event(),
{
    let message = upstream_error_message(status, body);
    let report = error_json(message.as_str(), "upstream_error");
    let text = to_text(&report);
    let mut stream = "data: ".to_owned();
    stream.append(text.as_str());
    stream.append("\n\n");
    stream.append("data: [DONE]\n\n");
    stream
}

/// The model that an answer names: the one that the upstream named, else the one that was asked
/// for.
pub open spec fn answered_model(upstream: Seq<char>, requested: Seq<char>) -> Seq<char> {
    if upstream.len() == 0 {
        requested
    } else {
        upstream
    }
}

/// The model that an answer names.
pub fn choose_model(upstream: String, requested: &str) -> (r: String)
    ensures
        r@ == answered_model(upstream@, requested@),
{
    if upstream.as_str().is_empty() {
        requested.to_owned()
    } else {
        upstream
    }
}

/// The one choice of an answer.
pub open spec fn choice_of(content: Seq<char>) -> Json {
    Json::Object(
        Map::empty().insert("index"@, Json::Number(number_of(0))).insert(
            "message"@,
            Json::Object(
                Map::empty().insert("role"@, Json::Str("assistant"@)).insert(
                    "content"@,
                    Json::Str(content),
                ),
            ),
        ).insert("finish_reason"@, Json::Str("stop"@)),
    )
}

/// An answer.
pub open spec fn completion_of(
    id: Seq<char>,
    created: i64,
    model: Seq<char>,
    content: Seq<char>,
    usage: Json,
) -> Json {
    Json::Object(
        Map::empty().insert("id"@, Json::Str(id)).insert(
            "object"@,
            Json::Str("chat.completion"@),
        ).insert("created"@, Json::Number(number_of_signed(created))).insert(
            "model"@,
            Json::Str(model),
        ).insert("choices"@, Json::Array(seq![choice_of(content)])).insert("usage"@, usage),
    )
}

/// An answer.
pub fn completion(
    id: &str,
    created: i64,
    model: &str,
    content: &str,
    usage: JsonValue,
) -> (r: JsonValue)
    ensures
        r@ == completion_of(id@, created, model@, content@, usage@),
{
    let mut message = Object::new();
    message.insert("role", JsonValue::Str("assistant".to_owned()));
    message.insert("content", JsonValue::Str(content.to_owned()));
    let mut choice = Object::new();
    choice.insert("index", JsonValue::Number(from_u64(0)));
    choice.insert("message", JsonValue::Object(message));
    choice.insert("finish_reason", JsonValue::Str("stop".to_owned()));
    let mut items: Vec<JsonValue> = Vec::new();
    items.push(JsonValue::Object(choice));
    let choices = JsonValue::Array(items);
    proof {
        lemma_array_view(choices);
        assert(jsons(items@) =~= seq![choice_of(content@)]);
    }
    let mut answer = Object::new();
    answer.insert("id", JsonValue::Str(id.to_owned()));
    answer.insert("object", JsonValue::Str("chat.completion".to_owned()));
    answer.insert("created", JsonValue::Number(from_i64(created)));
    answer.insert("model", JsonValue::Str(model.to_owned()));
    answer.insert("choices", choices);
    answer.insert("usage", usage);
    JsonValue::Object(answer)
}

/// The answer that is made of what was collected from the upstream: the content, the model that it
/// named and the usage that it reported, with other counts of tokens that came from its prompt
/// cache where there are such.
pub open spec fn answer_of(
    id: Seq<char>,
    created: i64,
    collected: (String, String, JsonValue),
    requested: Seq<char>,
    hit_tokens: Option<u64>,
    cached_tokens: Option<u64>,
) -> Json {
    completion_of(
        id,
        created,
        answered_model(collected.1@, requested),
        collected.0@,
        with_cached_tokens(reported_usage(collected.2@), hit_tokens, cached_tokens),
    )
}

/// The answer, with the identifier `id`, made at the time `created`, that is made of what was
/// collected from the upstream.
pub fn answer_with(
    id: &str,
    created: i64,
    collected: (String, String, JsonValue),
    requested: &str,
    hit_tokens: Option<u64>,
    cached_tokens: Option<u64>,
) -> (r: JsonValue)
    ensures
        r@ == answer_of(id@, created, collected, requested@, hit_tokens, cached_tokens),
{
    let (content, upstream_model, reported) = collected;
    let model = choose_model(upstream_model, requested);
    let mut usage = usage_or_empty(reported);
    apply_cache_hit_discount(&mut usage, hit_tokens, cached_tokens);
    completion(id, created, model.as_str(), content.as_str(), usage)
}

/// The answer, with a fresh identifier, made now, that is made of what was collected from the
/// upstream.
pub fn answer(
    collected: (String, String, JsonValue),
    requested: &str,
    hit_tokens: Option<u64>,
    cached_tokens: Option<u64>,
) -> (r: JsonValue)
    ensures
        exists|id: Seq<char>, created: i64|
            r@ == #[trigger] answer_of(
                id,
                created,
                collected,
                requested@,
                hit_tokens,
                cached_tokens,
            ) && id.len() == "chatcmpl-"@.len() + 36 && has_prefix(id, "chatcmpl-"@),
{
    let id = completion_id();
    let created: i64 = unix_seconds();
    answer_with(id.as_str(), created, collected, requested, hit_tokens, cached_tokens)
}

/// The answer to a health check.
pub fn health() -> (r: JsonValue)
    ensures
        r@ == Json::Object(Map::empty().insert("status"@, Json::Str("ok"@))),
{
    let mut body = Object::new();
    body.insert("status", JsonValue::Str("ok".to_owned()));
    JsonValue::Object(body)
}

/// The cache's figures, as they are reported.
pub open spec fn stats_json(
    stats: CacheStats,
    enabled: bool,
    hit_rate: serde_json::Number,
) -> Json {
    Json::Object(
        Map::empty().insert("enabled"@, Json::Bool(enabled)).insert(
            "max_entries"@,
            Json::Number(number_of(stats.max_size as u64)),
        ).insert("ttl_secs"@, Json::Number(number_of(stats.ttl_secs))).insert(
            "size"@,
            Json::Number(number_of(stats.current_size as u64)),
        ).insert("hits"@, Json::Number(number_of(stats.hits))).insert(
            "misses"@,
            Json::Number(number_of(stats.misses)),
        ).insert("hit_rate"@, Json::Number(hit_rate)).insert(
            "stores"@,
            Json::Number(number_of(stats.stores)),
        ).insert("evictions"@, Json::Number(number_of(stats.evictions))).insert(
            "expirations"@,
            Json::Number(number_of(stats.expirations)),
        ).insert("oversize_skips"@, Json::Number(number_of(stats.oversize_skips))).insert(
            "warming_keys"@,
            Json::Number(number_of(stats.warming_keys as u64)),
        ).insert("min_hit_count"@, Json::Number(number_of(stats.min_hit_count as u64))),
    )
}

/// The cache's figures, as they are reported. `hit_rate` is the part of the lookups that were
/// hits.
pub fn cache_stats(
    stats: &CacheStats,
    enabled: bool,
    hit_rate: serde_json::Number,
) -> (r: JsonValue)
    ensures
        r@ == stats_json(*stats, enabled, hit_rate),
{
    let mut body = Object::new();
    body.insert("enabled", JsonValue::Bool(enabled));
    body.insert("max_entries", JsonValue::Number(from_u64(stats.max_size as u64)));
    body.insert("ttl_secs", JsonValue::Number(from_u64(stats.ttl_secs)));
    body.insert("size", JsonValue::Number(from_u64(stats.current_size as u64)));
    body.insert("hits", JsonValue::Number(from_u64(stats.hits)));
    body.insert("misses", JsonValue::Number(from_u64(stats.misses)));
    body.insert("hit_rate", JsonValue::Number(hit_rate));
    body.insert("stores", JsonValue::Number(from_u64(stats.stores)));
    body.insert("evictions", JsonValue::Number(from_u64(stats.evictions)));
    body.insert("expirations", JsonValue::Number(from_u64(stats.expirations)));
    body.insert("oversize_skips", JsonValue::Number(from_u64(stats.oversize_skips)));
    body.insert("warming_keys", JsonValue::Number(from_u64(stats.warming_keys as u64)));
    body.insert("min_hit_count", JsonValue::Number(from_u64(stats.min_hit_count as u64)));
    JsonValue::Object(body)
}

} // verus!

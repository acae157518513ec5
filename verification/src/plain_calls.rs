//! What calls give back, in plain terms, for whatever they are called with.

use vstd::prelude::*;
use vstd::string::*;
use vstd::utf8::*;

use crate::cache::{CacheStats, ResponseCache};
use crate::chat::{
    broken_stream, classify_failure, connect_error_message, forwarded_auth, health, parse_request,
    read_error_message, refused_stream, upstream_error_message, UpstreamFailure,
};
use crate::clock::duration_nanos;
use crate::collect::{extract_openai_content, StreamCollector};
use crate::config::{lowercase_of, Config, EnvVars};
use crate::decimal::decimal;
use crate::digest::{blake3_of, fingerprint, le_number};
use crate::exchange::configured_cache;
use crate::ids::{answer_id, short_id};
use crate::interop::{from_text, json_parse, json_parse_bytes, json_text, to_text};
use crate::json::{Json, JsonValue};
use crate::key::CacheKey;
use crate::plain_stream::{carries, is_blank, is_tight, law_prefix, law_trimmed};
use crate::text::{str_eq, strip_prefix, trim};
use crate::usage::{cached_tokens, CachedTokens};

verus! {

/// The header of the client goes to the upstream as it is; an empty one does not.
pub proof fn law_header_goes_on_as_it_is(header: &str, r: Option<&str>)
    requires
        call_ensures(forwarded_auth, (header,), r),
    ensures
        header@.len() > 0 ==> r is Some && r->0@ == header@,
        header@.len() == 0 ==> r is None,
{
}

/// A body is the JSON value that the parser makes of it; what the parser says of a body that is no
/// JSON is what the client is told, after `Invalid JSON: `.
pub proof fn law_body_is_read_as_it_is(body: &[u8], r: Result<JsonValue, String>)
    requires
        call_ensures(parse_request, (body,), r),
    ensures
        r is Ok <==> json_parse_bytes(body@) is Ok,
        r is Ok ==> r->Ok_0@ == json_parse_bytes(body@)->Ok_0,
        r is Err ==> r->Err_0@ == "Invalid JSON: "@ + json_parse_bytes(body@)->Err_0,
{
}

/// The messages about the upstream hold what it said, or the error, as it is and whole.
pub proof fn law_messages_hold_what_was_said(
    status: &str,
    body: &str,
    refused: String,
    unreached: String,
    broken: String,
)
    requires
        call_ensures(upstream_error_message, (status, body), refused),
        call_ensures(connect_error_message, (body,), unreached),
        call_ensures(read_error_message, (body,), broken),
    ensures
        refused@ == "Upstream error: "@ + status@ + " - "@ + body@,
        unreached@ == "Connection failed: "@ + body@,
        broken@ == "Stream read error: "@ + body@,
{
}

/// A failure to connect is one whether there was time or not; a failure in time is one only where
/// there was a connection.
pub proof fn law_kinds_of_failures(late: bool, a: UpstreamFailure, b: UpstreamFailure)
    requires
        call_ensures(classify_failure, (true, late), a),
        call_ensures(classify_failure, (false, late), b),
    ensures
        a is Connect,
        b is Timeout <==> late,
        b is Other <==> !late,
{
}

/// What is streamed when the upstream breaks off, or refuses a request: what it said, as JSON, in
/// an event, and the end.
pub proof fn law_streams_hold_what_was_said(
    status: &str,
    body: &str,
    broken: (String, String),
    refused: String,
)
    requires
        call_ensures(broken_stream, (body,), broken),
        call_ensures(refused_stream, (status, body), refused),
    ensures
        broken.0@ == "data: {\"error\": {\"message\": "@ + json_text(
            Json::Str("Stream error: "@ + body@),
        ) + ", \"type\": "@ + json_text(Json::Str("stream_error"@)) + "}}\n\n"@,
        broken.1@ == "data: [DONE]\n\n"@,
        refused@ == "data: "@ + json_text(
            Json::Object(
                map!["error"@ => Json::Object(
                map![
                    "message"@ => Json::Str("Upstream error: "@ + status@ + " - "@ + body@),
                    "type"@ => Json::Str("upstream_error"@)
                ],
            )],
            ),
        ) + "\n\n"@ + "data: [DONE]\n\n"@,
{
}

/// The answer to a health check says `ok`, and nothing else.
pub proof fn law_health(r: JsonValue, name: Seq<char>)
    requires
        call_ensures(health, (), r),
    ensures
        r@ is Object,
        r@->Object_0.contains_key(name) <==> name == "status"@,
        r@->Object_0["status"@] == Json::Str("ok"@),
{
}

/// The identifier of a request is the beginning of a longer one; that of an answer is the longer
/// one with a word before it.
pub proof fn law_identifiers(uuid: &str, short: String, long: String)
    requires
        uuid@.len() >= 8,
        call_ensures(short_id, (uuid,), short),
        call_ensures(answer_id, (uuid,), long),
    ensures
        short@.len() == 8,
        forall|i: int| 0 <= i < 8 ==> #[trigger] short@[i] == uuid@[i],
        long@ == "chatcmpl-"@ + uuid@,
{
}

/// The answer that a collector gives is what it has collected, as it is and whole.
pub proof fn law_answer_is_what_was_collected(
    collector: StreamCollector,
    r: (String, String, JsonValue),
)
    requires
        call_ensures(StreamCollector::into_answer, (collector,), r),
    ensures
        r.0@ == collector.collected().content,
        r.1@ == collector.collected().model,
        r.2@ == collector.collected().usage,
{
}

/// Whether `n` is what a variable sets: the number up to `max` that it spells, and the default
/// where it spells none or is not there.
pub open spec fn is_set_to(var: Option<String>, max: int, default: int, n: int) -> bool {
    &&& var is None ==> n == default
    &&& var is Some && decimal(var->0@, max) is None ==> n == default
    &&& var is Some && decimal(var->0@, max) is Some ==> n == decimal(var->0@, max)->0
}

/// Every setting comes from its own variable.
pub proof fn law_settings(vars: EnvVars, r: Config)
    requires
        call_ensures(Config::from_env, (vars,), r),
    ensures
        vars.upstream_url is Some ==> r.upstream_url@ == vars.upstream_url->0@,
        vars.upstream_url is None ==> r.upstream_url@ == "http://127.0.0.1:8317"@,
        is_set_to(vars.timeout, 0xffff_ffff_ffff_ffff, 600, r.timeout_secs as int),
        is_set_to(vars.port, 65535, 18318, r.port as int),
        is_set_to(vars.cache_ttl_secs, 0xffff_ffff_ffff_ffff, 300, r.cache_ttl_secs as int),
        is_set_to(vars.cache_max_entries, usize::MAX as int, 100, r.cache_max_entries as int),
        is_set_to(vars.cache_min_hit_count, 0xffff_ffff, 3, r.cache_min_hit_count as int),
        is_set_to(
            vars.cache_warmup_window_secs,
            0xffff_ffff_ffff_ffff,
            180,
            r.cache_warmup_window_secs as int,
        ),
        vars.cache_max_request_bytes is Some ==> is_set_to(
            vars.cache_max_request_bytes,
            usize::MAX as int,
            102_400,
            r.cache_max_request_bytes as int,
        ),
        vars.cache_max_request_bytes is None ==> is_set_to(
            vars.cache_max_response_bytes,
            usize::MAX as int,
            102_400,
            r.cache_max_request_bytes as int,
        ),
        vars.debug is None ==> r.debug,
        vars.debug is Some ==> r.debug == (lowercase_of(vars.debug->0@) == "true"@),
        vars.fix_tool_call_name is None ==> r.fix_tool_call_name,
        vars.fix_tool_call_name is Some ==> r.fix_tool_call_name == (lowercase_of(
            vars.fix_tool_call_name->0@,
        ) != "false"@),
        vars.cache_enabled is None ==> !r.cache_enabled,
        vars.cache_enabled is Some ==> r.cache_enabled == (lowercase_of(vars.cache_enabled->0@)
            == "true"@),
{
}

/// The cache that a configuration asks for is empty, with the times in nanoseconds.
pub proof fn law_configured_cache(config: &Config, r: ResponseCache, key: CacheKey)
    requires
        call_ensures(configured_cache, (config,), r),
    ensures
        r@.valid(),
        !r@.entries.contains_key(key),
        !r@.occurrences.contains_key(key),
        r@.ttl == config.cache_ttl_secs * 1_000_000_000,
        r@.max_entries == config.cache_max_entries,
        r@.max_request_bytes == config.cache_max_request_bytes,
        r@.min_hit_count == config.cache_min_hit_count,
        config.cache_min_hit_count > 0 ==> r@.warmup_window == config.cache_warmup_window_secs
            * 1_000_000_000,
        r@.hits == 0 && r@.misses == 0 && r@.stores == 0 && r@.evictions == 0 && r@.expirations
            == 0 && r@.oversize_skips == 0,
{
}

/// A new cache has the settings that it was made with, and no warm-up; one is set, and nothing else
/// changed, by asking for it.
pub proof fn law_settings_of_a_cache(
    ttl_secs: u64,
    max_entries: usize,
    max_request_bytes: usize,
    min_hit_count: u32,
    window: std::time::Duration,
    fresh: ResponseCache,
    warm: ResponseCache,
)
    requires
        call_ensures(ResponseCache::new, (ttl_secs, max_entries, max_request_bytes), fresh),
        call_ensures(ResponseCache::with_warmup, (fresh, min_hit_count, window), warm),
    ensures
        fresh@.ttl == ttl_secs * 1_000_000_000,
        fresh@.max_entries == max_entries,
        fresh@.max_request_bytes == max_request_bytes,
        fresh@.min_hit_count == 0,
        warm@.ttl == ttl_secs * 1_000_000_000,
        warm@.max_entries == max_entries,
        warm@.max_request_bytes == max_request_bytes,
        warm@.min_hit_count == min_hit_count,
        warm@.warmup_window == duration_nanos(window),
        warm@.entries == fresh@.entries,
        warm@.occurrences == fresh@.occurrences,
        warm@.valid(),
{
}

/// The figures are those of the cache.
pub proof fn law_figures(cache: &ResponseCache, r: CacheStats)
    requires
        call_ensures(ResponseCache::stats, (cache,), r),
    ensures
        r.hits == cache@.hits,
        r.misses == cache@.misses,
        r.stores == cache@.stores,
        r.evictions == cache@.evictions,
        r.expirations == cache@.expirations,
        r.oversize_skips == cache@.oversize_skips,
        r.current_size == cache@.entries.dom().len(),
        r.max_size == cache@.max_entries,
        r.ttl_secs * 1_000_000_000 == cache@.ttl,
        r.min_hit_count == cache@.min_hit_count,
        cache@.min_hit_count == 0 ==> r.warming_keys == 0,
        cache@.min_hit_count > 0 ==> r.warming_keys == cache@.warming().len(),
{
}

/// What is read off a value by its methods.
pub proof fn law_methods_of_a_value(
    v: &JsonValue,
    name: &str,
    field: Option<&JsonValue>,
    null: bool,
    empty: bool,
    text: Option<&str>,
)
    requires
        call_ensures(JsonValue::get, (v, name), field),
        call_ensures(JsonValue::is_null, (v,), null),
        call_ensures(JsonValue::is_empty_array, (v,), empty),
        call_ensures(JsonValue::as_str, (v,), text),
    ensures
        field is Some <==> v@ is Object && v@->Object_0.contains_key(name@),
        field is Some ==> field->0@ == v@->Object_0[name@],
        null <==> v@ == Json::Null,
        empty <==> v@ is Array && v@->Array_0.len() == 0,
        text is Some <==> v@ is Str,
        text is Some ==> text->0@ == v@->Str_0,
{
    if v@ is Array && v@->Array_0.len() == 0 {
        assert(v@->Array_0 =~= Seq::<Json>::empty());
    }
}

/// Strings are compared by their characters; a prefix is what stands before the rest; trimming
/// takes away the white space at both ends.
pub proof fn law_calls_on_text(
    s: &str,
    t: &str,
    same: bool,
    rest: Option<&str>,
    inner: &str,
    a: Seq<char>,
    text: Seq<char>,
    b: Seq<char>,
    other: Seq<char>,
)
    requires
        call_ensures(str_eq, (s, t), same),
        call_ensures(strip_prefix, (s, t), rest),
        call_ensures(trim, (s,), inner),
        is_blank(a),
        is_blank(b),
        text.len() == 0 || is_tight(text),
    ensures
        same <==> s@ == t@,
        rest is Some ==> s@ == t@ + rest->0@,
        rest is None ==> s@ != t@ + other,
        s@ == a + text + b ==> inner@ == text,
{
    law_prefix(t@, other, s@);
    law_trimmed(a, text, b);
}

/// The text of a value is the one that is parsed for it; what is parsed is handed out as it is; the
/// text that a chunk adds is the one in the delta of its first choice; a fingerprint is taken of
/// the whole text.
pub proof fn law_calls_on_json(
    v: &JsonValue,
    s: &str,
    text: String,
    value: Option<JsonValue>,
    content: Option<&str>,
    t: Seq<char>,
    print: u64,
)
    requires
        call_ensures(to_text, (v,), text),
        call_ensures(from_text, (s,), value),
        call_ensures(extract_openai_content, (v,), content),
        call_ensures(fingerprint, (s,), print),
    ensures
        text@ == json_text(v@),
        value is Some <==> json_parse(s@) is Some,
        value is Some ==> value->0@ == json_parse(s@)->0,
        carries(v@, t) ==> content is Some && content->0@ == t,
        print == le_number(blake3_of(encode_utf8(s@))),
{
}

/// The counts that a usage report gives are the numbers in their fields.
pub proof fn law_counts_of_a_report(
    usage: &JsonValue,
    r: CachedTokens,
    map: Map<Seq<char>, Json>,
    details: Map<Seq<char>, Json>,
)
    requires
        call_ensures(cached_tokens, (usage,), r),
        usage@ == Json::Object(map),
    ensures
        map.contains_key("prompt_cache_hit_tokens"@) && map["prompt_cache_hit_tokens"@] is Number
            ==> r.hit_tokens == Some(map["prompt_cache_hit_tokens"@]->Number_0),
        !map.contains_key("prompt_cache_hit_tokens"@) || !(
        map["prompt_cache_hit_tokens"@] is Number) ==> r.hit_tokens is None,
        map.contains_key("prompt_tokens_details"@) && map["prompt_tokens_details"@]
            == Json::Object(details) && details.contains_key("cached_tokens"@)
            && details["cached_tokens"@] is Number ==> r.cached_tokens == Some(
            details["cached_tokens"@]->Number_0,
        ),
        !map.contains_key("prompt_tokens_details"@) ==> r.cached_tokens is None,
        map.contains_key("prompt_tokens_details"@) && map["prompt_tokens_details"@]
            == Json::Object(details) && (!details.contains_key("cached_tokens"@) || !(
        details["cached_tokens"@] is Number)) ==> r.cached_tokens is None,
{
}

} // verus!

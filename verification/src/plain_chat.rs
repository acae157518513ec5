//! Requests, answers, reports, settings and addresses in plain terms: characters, numbers and the
//! fields of JSON values by their names.

use vstd::prelude::*;
use vstd::string::*;
use vstd::utf8::*;

use crate::cache::CacheStats;
use crate::chat::{
    answer_of, answered_model, auth_shown, bearer_key, completion_of, error_event_of,
    error_json_of, failed_stream_of, message_count, requested_model, stats_json, streaming,
    wants_stream, UpstreamFailure,
};
use crate::config::{lowercase_of, number_or, says};
use crate::decimal::{decimal, digits_value, is_digit, unsigned};
use crate::exchange::fits;
use crate::interop::json_text;
use crate::json::{
    fields, jsons, lemma_fields_absent, lemma_fields_last, opt_chars, opt_json, opt_owned_json,
    Json, JsonValue,
};
use crate::mask::{law_ascii_key_is_masked, masked};
use crate::number::{number_of, number_of_signed};
use crate::plain_stream::{law_prefix, law_trimmed_end};
use crate::sorting::{bytes_less, names_sorted};
use crate::text::{has_prefix, lemma_position, lemma_position_is};
use crate::upstream::{parts_view, upstream_url, UrlParts, UrlView};
use crate::usage::{
    details_of, law_no_discount, number_in, reported_usage, with_cached_tokens,
};

verus! {

/// The model of a request is the string in its field `model`; a stream is asked for by `true` in
/// its field `stream` and nothing else; its messages are the elements of the array in its field
/// `messages`.
pub proof fn law_what_a_request_asks_for(map: Map<Seq<char>, Json>, other: Json)
    requires
        !(other is Object),
    ensures
        map.contains_key("model"@) && map["model"@] is Str ==> requested_model(Json::Object(map))
            == map["model"@]->Str_0,
        !map.contains_key("model"@) || !(map["model"@] is Str) ==> requested_model(
            Json::Object(map),
        ) == "(unknown)"@,
        wants_stream(Json::Object(map)) <==> map.contains_key("stream"@) && map["stream"@]
            == Json::Bool(true),
        map.contains_key("messages"@) && map["messages"@] is Array ==> message_count(
            Json::Object(map),
        ) == map["messages"@]->Array_0.len(),
        !map.contains_key("messages"@) || !(map["messages"@] is Array) ==> message_count(
            Json::Object(map),
        ) == 0,
        requested_model(other) == "(unknown)"@,
        !wants_stream(other),
        message_count(other) == 0,
{
}

/// A request that is made to ask for a stream has `true` in its field `stream`; every other field
/// stays as it is, and no other is added. Of JSON values only objects and `null` can be made so.
pub proof fn law_request_for_a_stream(map: Map<Seq<char>, Json>, name: Seq<char>, request: Json)
    ensures
        streaming(Json::Object(map)) is Object,
        streaming(Json::Object(map))->Object_0.contains_key("stream"@),
        streaming(Json::Object(map))->Object_0["stream"@] == Json::Bool(true),
        name != "stream"@ ==> streaming(Json::Object(map))->Object_0.contains_key(name)
            == map.contains_key(name),
        name != "stream"@ && map.contains_key(name) ==> streaming(
            Json::Object(map),
        )->Object_0[name] == map[name],
        streaming(Json::Null) is Object,
        streaming(Json::Null)->Object_0.contains_key("stream"@),
        streaming(Json::Null)->Object_0["stream"@] == Json::Bool(true),
        name != "stream"@ ==> !streaming(Json::Null)->Object_0.contains_key(name),
        fits(request) <==> request is Object || request is Null,
{
}

/// The scheme `Bearer` is taken off a header, however often it stands there; what does not begin
/// with it is the key.
pub proof fn law_scheme_is_taken_off(rest: Seq<char>)
    ensures
        bearer_key("Bearer "@ + rest) == bearer_key(rest),
        (forall|key: Seq<char>| #[trigger] ("Bearer "@ + key) != rest) ==> bearer_key(rest) == rest,
{
    reveal_strlit("Bearer ");
    law_prefix("Bearer "@, rest, rest);
    if has_prefix(rest, "Bearer "@) {
        let key = rest.skip("Bearer "@.len() as int);
        assert("Bearer "@ + key == rest);
    }
}

/// What the log shows of a header that holds a key of ASCII characters, with the scheme before it
/// or without: of a key of more than 12 characters the first 6 and the last 4; of a shorter one at
/// most the first 4.
pub proof fn law_what_the_log_shows(key: Seq<char>)
    requires
        is_ascii_chars(key),
        forall|rest: Seq<char>| #[trigger] ("Bearer "@ + rest) != key,
    ensures
        key.len() > 12 ==> auth_shown(key) == key.take(6) + "****"@ + key.skip(key.len() - 4),
        key.len() > 12 ==> auth_shown("Bearer "@ + key) == auth_shown(key),
        4 < key.len() <= 12 ==> auth_shown(key) == key.take(4) + "***"@,
        4 < key.len() <= 12 ==> auth_shown("Bearer "@ + key) == auth_shown(key),
        0 < key.len() <= 4 ==> auth_shown(key) == key + "***"@,
        0 < key.len() <= 4 ==> auth_shown("Bearer "@ + key) == auth_shown(key),
        key.len() == 0 ==> auth_shown(key) == "(none)"@,
        key.len() == 0 ==> auth_shown("Bearer "@ + key) == "(empty)"@,
{
    reveal_strlit("Bearer ");
    law_scheme_is_taken_off(key);
    law_ascii_key_is_masked(key);
}

proof fn lemma_encode_concat(a: Seq<char>, b: Seq<char>)
    ensures
        encode_utf8(a + b) == encode_utf8(a) + encode_utf8(b),
        a.len() <= encode_utf8(a).len(),
    decreases a.len(),
{
    if a.len() == 0 {
        assert(a + b =~= b);
        assert(encode_utf8(a) + encode_utf8(b) =~= encode_utf8(b));
    } else {
        assert((a + b).drop_first() =~= a.drop_first() + b);
        lemma_encode_concat(a.drop_first(), b);
        assert(encode_utf8(a + b) =~= encode_utf8(a) + encode_utf8(b));
    }
}

/// What the log shows of a key, whatever its characters: of one with more than 12 bytes the
/// characters of the first 6 and the last 4 bytes; of one with more than 4 those of the first 4; a
/// shorter one whole.
pub proof fn law_masked(head: Seq<char>, middle: Seq<char>, tail: Seq<char>)
    ensures
        encode_utf8(head).len() == 6 && encode_utf8(tail).len() == 4 && encode_utf8(
            head + middle + tail,
        ).len() > 12 ==> masked(head + middle + tail) == head + "****"@ + tail,
        encode_utf8(head).len() == 4 && 4 < encode_utf8(head + middle).len() <= 12 ==> masked(
            head + middle,
        ) == head + "***"@,
        0 < head.len() && encode_utf8(head).len() <= 4 ==> masked(head) == head + "***"@,
        masked(Seq::<char>::empty()) == "(empty)"@,
{
    lemma_encode_concat(head, middle);
    lemma_encode_concat(head + middle, tail);
    lemma_encode_concat(head, Seq::empty());
    encode_utf8_decode_utf8(head);
    encode_utf8_decode_utf8(tail);
    let whole = encode_utf8(head + middle + tail);
    if encode_utf8(head).len() == 6 && encode_utf8(tail).len() == 4 {
        assert(whole.subrange(0, 6) =~= encode_utf8(head));
        assert(whole.subrange(whole.len() - 4, whole.len() as int) =~= encode_utf8(tail));
    }
    if encode_utf8(head).len() == 4 {
        assert(encode_utf8(head + middle).subrange(0, 4) =~= encode_utf8(head));
    }
}

/// An error is reported as an object with the one field `error`, an object with the message and the
/// type.
pub proof fn law_error_report(message: Seq<char>, error_type: Seq<char>, name: Seq<char>)
    ensures
        ({
            let report = error_json_of(message, error_type);
            let error = report->Object_0["error"@];
            &&& report is Object
            &&& report->Object_0.contains_key(name) <==> name == "error"@
            &&& error is Object
            &&& error->Object_0.contains_key(name) <==> name == "message"@ || name == "type"@
            &&& error->Object_0["message"@] == Json::Str(message)
            &&& error->Object_0["type"@] == Json::Str(error_type)
        }),
{
    reveal_strlit("message");
    reveal_strlit("type");
    assert("message"@.len() != "type"@.len());
}

/// What is streamed when a request to the upstream failed: one event, with a message and a type, as
/// JSON, and the end.
pub proof fn law_stream_of_a_failure(name: Seq<char>, error: Seq<char>, message: Seq<char>)
    ensures
        failed_stream_of(UpstreamFailure::Connect, name, error)
            == "data: {\"error\": {\"message\": "@ + json_text(
            Json::Str("Connection failed: "@ + error),
        ) + ", \"type\": "@ + json_text(Json::Str("connect_error"@)) + "}}\n\n"@
            + "data: [DONE]\n\n"@,
        failed_stream_of(UpstreamFailure::Timeout, name, error)
            == "data: {\"error\": {\"message\": "@ + json_text(
            Json::Str("Read timeout from upstream"@),
        ) + ", \"type\": "@ + json_text(Json::Str("timeout"@)) + "}}\n\n"@ + "data: [DONE]\n\n"@,
        failed_stream_of(UpstreamFailure::Other, name, error)
            == "data: {\"error\": {\"message\": "@ + json_text(
            Json::Str(name + ": "@ + error),
        ) + ", \"type\": "@ + json_text(Json::Str("stream_error"@)) + "}}\n\n"@
            + "data: [DONE]\n\n"@,
        error_event_of(message, name) == "data: {\"error\": {\"message\": "@ + json_text(
            Json::Str(message),
        ) + ", \"type\": "@ + json_text(Json::Str(name)) + "}}\n\n"@,
{
}

/// Whether a name is one of the fields of an answer.
pub open spec fn is_in_answer(name: Seq<char>) -> bool {
    name == "id"@ || name == "object"@ || name == "created"@ || name == "model"@ || name
        == "choices"@ || name == "usage"@
}

proof fn lemma_names_in_answer()
    ensures
        "id"@ != "object"@,
        "id"@ != "created"@,
        "id"@ != "model"@,
        "id"@ != "choices"@,
        "id"@ != "usage"@,
        "object"@ != "created"@,
        "object"@ != "model"@,
        "object"@ != "choices"@,
        "object"@ != "usage"@,
        "created"@ != "model"@,
        "created"@ != "choices"@,
        "created"@ != "usage"@,
        "model"@ != "choices"@,
        "model"@ != "usage"@,
        "choices"@ != "usage"@,
        "index"@ != "message"@,
        "index"@ != "finish_reason"@,
        "message"@ != "finish_reason"@,
        "role"@ != "content"@,
{
    reveal_strlit("id");
    reveal_strlit("object");
    reveal_strlit("created");
    reveal_strlit("model");
    reveal_strlit("choices");
    reveal_strlit("usage");
    reveal_strlit("index");
    reveal_strlit("message");
    reveal_strlit("finish_reason");
    reveal_strlit("role");
    reveal_strlit("content");
    assert("created"@[1] == 'r' && "choices"@[1] == 'h');
    assert("model"@[0] == 'm' && "usage"@[0] == 'u');
    assert("id"@.len() == 2 && "object"@.len() == 6 && "role"@.len() == 4 && "content"@.len() == 7);
    assert("index"@.len() == 5 && "message"@.len() == 7 && "finish_reason"@.len() == 13);
}

/// What can be read off an answer is what it was made of: the identifier, the time, the model, the
/// usage, and one choice, number 0, that has stopped, with a message of the assistant that holds
/// the content as it is.
pub proof fn law_what_an_answer_holds(
    id: Seq<char>,
    created: i64,
    model: Seq<char>,
    content: Seq<char>,
    usage: Json,
    name: Seq<char>,
)
    ensures
        ({
            let answer = completion_of(id, created, model, content, usage);
            let map = answer->Object_0;
            let choice = map["choices"@]->Array_0[0];
            let message = choice->Object_0["message"@];
            &&& answer is Object
            &&& map.contains_key(name) <==> is_in_answer(name)
            &&& map["id"@] == Json::Str(id)
            &&& map["object"@] == Json::Str("chat.completion"@)
            &&& map["created"@] == Json::Number(number_of_signed(created))
            &&& map["model"@] == Json::Str(model)
            &&& map["usage"@] == usage
            &&& map["choices"@] is Array
            &&& map["choices"@]->Array_0.len() == 1
            &&& choice is Object
            &&& choice->Object_0.contains_key(name) <==> name == "index"@ || name == "message"@
                || name == "finish_reason"@
            &&& choice->Object_0["index"@] == Json::Number(number_of(0))
            &&& choice->Object_0["finish_reason"@] == Json::Str("stop"@)
            &&& message is Object
            &&& message->Object_0.contains_key(name) <==> name == "role"@ || name == "content"@
            &&& message->Object_0["role"@] == Json::Str("assistant"@)
            &&& message->Object_0["content"@] == Json::Str(content)
        }),
{
    lemma_names_in_answer();
}

/// The answer that is made of what was collected: its content as it is; the model that the upstream
/// named, or where it named none the one that was asked for; the usage that the upstream reported.
pub proof fn law_answer_of_what_was_collected(
    id: Seq<char>,
    created: i64,
    collected: (String, String, JsonValue),
    requested: Seq<char>,
)
    ensures
        ({
            let map = answer_of(id, created, collected, requested, None, None)->Object_0;
            let choice = map["choices"@]->Array_0[0]->Object_0;
            &&& map["id"@] == Json::Str(id)
            &&& map["created"@] == Json::Number(number_of_signed(created))
            &&& choice["message"@]->Object_0["content"@] == Json::Str(collected.0@)
            &&& collected.1@.len() > 0 ==> map["model"@] == Json::Str(collected.1@)
            &&& collected.1@.len() == 0 ==> map["model"@] == Json::Str(requested)
            &&& !(collected.2@ is Null) ==> map["usage"@] == collected.2@
            &&& collected.2@ is Null ==> map["usage"@] == reported_usage(Json::Null)
        }),
{
    lemma_names_in_answer();
    law_no_discount(reported_usage(collected.2@));
}

/// Of an answer, discounted counts change the usage only.
pub proof fn law_discount_changes_the_usage_only(
    id: Seq<char>,
    created: i64,
    collected: (String, String, JsonValue),
    requested: Seq<char>,
    hit_tokens: Option<u64>,
    cached_tokens: Option<u64>,
    name: Seq<char>,
)
    requires
        name != "usage"@,
    ensures
        ({
            let plain = answer_of(id, created, collected, requested, None, None)->Object_0;
            let map = answer_of(
                id,
                created,
                collected,
                requested,
                hit_tokens,
                cached_tokens,
            )->Object_0;
            &&& map.contains_key(name) == plain.contains_key(name)
            &&& plain.contains_key(name) ==> map[name] == plain[name]
            &&& map["usage"@] == with_cached_tokens(plain["usage"@], hit_tokens, cached_tokens)
        }),
{
    lemma_names_in_answer();
    law_no_discount(reported_usage(collected.2@));
}

/// The model that an answer names.
pub proof fn law_model_of_an_answer(upstream: Seq<char>, requested: Seq<char>)
    ensures
        upstream.len() > 0 ==> answered_model(upstream, requested) == upstream,
        upstream.len() == 0 ==> answered_model(upstream, requested) == requested,
{
}

/// Where the upstream reported no usage, no tokens are reported; else what it reported.
pub proof fn law_reported_usage(usage: Json, name: Seq<char>)
    ensures
        !(usage is Null) ==> reported_usage(usage) == usage,
        reported_usage(Json::Null) is Object,
        reported_usage(Json::Null)->Object_0.contains_key(name) <==> name == "prompt_tokens"@
            || name == "completion_tokens"@ || name == "total_tokens"@,
        reported_usage(Json::Null)->Object_0.contains_key(name) ==> reported_usage(
            Json::Null,
        )->Object_0[name] == Json::Number(number_of(0)),
{
}

/// Discounted counts replace the number in the field `prompt_cache_hit_tokens` of a usage report,
/// and the number in the field `cached_tokens` of its `prompt_tokens_details`, where these are
/// numbers and there are discounted ones. Every other field stays as it is, there and here, and
/// none is added.
pub proof fn law_discounted_counts(
    map: Map<Seq<char>, Json>,
    hit_tokens: Option<u64>,
    cached_tokens: Option<u64>,
    name: Seq<char>,
    other: Json,
)
    requires
        !(other is Object),
    ensures
        ({
            let usage = with_cached_tokens(Json::Object(map), hit_tokens, cached_tokens);
            let after = usage->Object_0;
            let before_details = map["prompt_tokens_details"@];
            let details = after["prompt_tokens_details"@];
            &&& usage is Object
            &&& after.contains_key(name) == map.contains_key(name)
            &&& map.contains_key(name) && name != "prompt_cache_hit_tokens"@ && name
                != "prompt_tokens_details"@ ==> after[name] == map[name]
            &&& map.contains_key("prompt_cache_hit_tokens"@) ==> after["prompt_cache_hit_tokens"@]
                == if map["prompt_cache_hit_tokens"@] is Number && hit_tokens is Some {
                Json::Number(number_of(hit_tokens->0))
            } else {
                map["prompt_cache_hit_tokens"@]
            }
            &&& map.contains_key("prompt_tokens_details"@) && !(before_details is Object)
                ==> details == before_details
            &&& map.contains_key("prompt_tokens_details"@) && before_details is Object ==> {
                let old_map = before_details->Object_0;
                &&& details is Object
                &&& details->Object_0.contains_key(name) == old_map.contains_key(name)
                &&& old_map.contains_key(name) && name != "cached_tokens"@
                    ==> details->Object_0[name] == old_map[name]
                &&& old_map.contains_key("cached_tokens"@) ==> details->Object_0["cached_tokens"@]
                    == if old_map["cached_tokens"@] is Number && cached_tokens is Some {
                    Json::Number(number_of(cached_tokens->0))
                } else {
                    old_map["cached_tokens"@]
                }
            }
        }),
        with_cached_tokens(other, hit_tokens, cached_tokens) == other,
{
    reveal_strlit("prompt_cache_hit_tokens");
    reveal_strlit("prompt_tokens_details");
    assert("prompt_cache_hit_tokens"@.len() != "prompt_tokens_details"@.len());
}

/// The number in a field is read where it is a number; the details of the prompt tokens are the
/// field `prompt_tokens_details`.
pub proof fn law_counts_that_are_read(map: Map<Seq<char>, Json>, name: Seq<char>)
    ensures
        map.contains_key(name) && map[name] is Number ==> number_in(Json::Object(map), name)
            == Some(map[name]->Number_0),
        !map.contains_key(name) || !(map[name] is Number) ==> number_in(
            Json::Object(map),
            name,
        ) is None,
        map.contains_key("prompt_tokens_details"@) ==> details_of(Json::Object(map))
            == map["prompt_tokens_details"@],
        !map.contains_key("prompt_tokens_details"@) ==> number_in(
            details_of(Json::Object(map)),
            name,
        ) is None,
{
}

/// Whether a name is one of the figures of the cache.
pub open spec fn is_figure(name: Seq<char>) -> bool {
    ||| name == "enabled"@ || name == "max_entries"@ || name == "ttl_secs"@ || name == "size"@
    ||| name == "hits"@ || name == "misses"@ || name == "hit_rate"@ || name == "stores"@
    ||| name == "evictions"@ || name == "expirations"@ || name == "oversize_skips"@
    ||| name == "warming_keys"@ || name == "min_hit_count"@
}

/// Every figure of the cache is reported under its name.
pub proof fn law_reported_figures(
    stats: CacheStats,
    enabled: bool,
    hit_rate: serde_json::Number,
    name: Seq<char>,
)
    ensures
        ({
            let report = stats_json(stats, enabled, hit_rate);
            let map = report->Object_0;
            &&& report is Object
            &&& map.contains_key(name) <==> is_figure(name)
            &&& map["enabled"@] == Json::Bool(enabled)
            &&& map["max_entries"@] == Json::Number(number_of(stats.max_size as u64))
            &&& map["ttl_secs"@] == Json::Number(number_of(stats.ttl_secs))
            &&& map["size"@] == Json::Number(number_of(stats.current_size as u64))
            &&& map["hits"@] == Json::Number(number_of(stats.hits))
            &&& map["misses"@] == Json::Number(number_of(stats.misses))
            &&& map["hit_rate"@] == Json::Number(hit_rate)
            &&& map["stores"@] == Json::Number(number_of(stats.stores))
            &&& map["evictions"@] == Json::Number(number_of(stats.evictions))
            &&& map["expirations"@] == Json::Number(number_of(stats.expirations))
            &&& map["oversize_skips"@] == Json::Number(number_of(stats.oversize_skips))
            &&& map["warming_keys"@] == Json::Number(number_of(stats.warming_keys as u64))
            &&& map["min_hit_count"@] == Json::Number(number_of(stats.min_hit_count as u64))
        }),
{
    reveal_strlit("enabled");
    reveal_strlit("max_entries");
    reveal_strlit("ttl_secs");
    reveal_strlit("size");
    reveal_strlit("hits");
    reveal_strlit("misses");
    reveal_strlit("hit_rate");
    reveal_strlit("stores");
    reveal_strlit("evictions");
    reveal_strlit("expirations");
    reveal_strlit("oversize_skips");
    reveal_strlit("warming_keys");
    reveal_strlit("min_hit_count");
    assert("ttl_secs"@[0] == 't' && "hit_rate"@[0] == 'h');
    assert("size"@[0] == 's' && "hits"@[0] == 'h');
    assert("misses"@[0] == 'm' && "stores"@[0] == 's');
    assert("max_entries"@[0] == 'm' && "expirations"@[0] == 'e');
    assert("ttl_secs"@.len() == 8 && "hit_rate"@.len() == 8 && "size"@.len() == 4 && "hits"@.len()
        == 4 && "misses"@.len() == 6 && "stores"@.len() == 6 && "max_entries"@.len() == 11
        && "expirations"@.len() == 11);
    assert("enabled"@.len() == 7 && "evictions"@.len() == 9 && "oversize_skips"@.len() == 14
        && "warming_keys"@.len() == 12 && "min_hit_count"@.len() == 13);
}

/// Whether a character is one of the ten digits, and which.
pub open spec fn is_the_digit(c: char, d: int) -> bool {
    0 <= d <= 9 && c as int == 48 + d
}

proof fn lemma_digits(digits: Seq<char>)
    requires
        forall|i: int| 0 <= i < digits.len() ==> is_digit(#[trigger] digits[i]),
    ensures
        0 <= digits_value(digits),
    decreases digits.len(),
{
    if digits.len() > 0 {
        assert(is_digit(digits[digits.len() - 1]));
        lemma_digits(digits.drop_last());
    }
}

/// One digit spells the number that it is; one more digit makes ten times the number, and the digit
/// more; a plus sign before the first digit changes nothing. A number above `max` is none, and
/// every number that is spelt is at most `max`.
pub proof fn law_decimal_numbers(text: Seq<char>, c: char, d: int, v: int, max: int, larger: int)
    requires
        is_the_digit(c, d),
        max <= larger,
    ensures
        decimal(seq![c], max) == if d <= max {
            Some(d)
        } else {
            None
        },
        decimal(text, larger) == Some(v) ==> 0 <= v <= larger,
        decimal(text, larger) == Some(v) ==> decimal(text, max) == if v <= max {
            Some(v)
        } else {
            None
        },
        decimal(text, larger) == Some(v) ==> decimal(text.push(c), larger) == if 10 * v + d
            <= larger {
            Some(10 * v + d)
        } else {
            None
        },
        text.len() > 0 && text[0] != '+' ==> decimal(seq!['+'] + text, max) == decimal(text, max),
{
    let one = seq![c];
    assert(one.drop_last() =~= Seq::<char>::empty());
    assert(unsigned(one) == one);
    assert(is_digit(one[0]));
    assert(digits_value(one.drop_last()) == 0);
    assert(digits_value(one) == d);
    let digits = unsigned(text);
    if decimal(text, larger) == Some(v) {
        lemma_digits(digits);
        let more = unsigned(text.push(c));
        assert(more =~= digits.push(c));
        assert(more.drop_last() =~= digits);
        assert forall|i: int| 0 <= i < more.len() implies is_digit(#[trigger] more[i]) by {
            if i < digits.len() {
                assert(is_digit(digits[i]));
            }
        }
    }
    if text.len() > 0 && text[0] != '+' {
        assert((seq!['+'] + text).drop_first() =~= text);
    }
}

/// A text with a character that is no digit spells no number, but for one plus sign at its start;
/// nor does an empty text, or the plus sign alone.
pub proof fn law_no_decimal_number(text: Seq<char>, i: int, max: int)
    ensures
        text.len() == 0 ==> decimal(text, max) is None,
        text.len() == 1 && text[0] == '+' ==> decimal(text, max) is None,
        0 <= i < text.len() && !(48 <= text[i] as int <= 57) && !(i == 0 && text[0] == '+')
            ==> decimal(text, max) is None,
{
    let digits = unsigned(text);
    if 0 <= i < text.len() && !(48 <= text[i] as int <= 57) && !(i == 0 && text[0] == '+') {
        if text[0] == '+' {
            assert(!is_digit(digits[i - 1]));
        } else {
            assert(!is_digit(digits[i]));
        }
    }
}

/// A variable gives the number that it spells; without it, or where it spells none, there is the
/// default. A word is set where the variable in lower case is that word.
pub proof fn law_variables(text: String, max: int, default: int, n: int, word: Seq<char>)
    ensures
        number_or(None, max, default) == default,
        decimal(text@, max) == Some(n) ==> number_or(Some(text), max, default) == n,
        decimal(text@, max) is None ==> number_or(Some(text), max, default) == default,
        !says(None, word),
        says(Some(text), word) <==> lowercase_of(text@) == word,
{
}

/// An address with a host and a path that is more than a slash, or with a query, is used as it is;
/// one with the host alone gets the usual route, in place of the slashes at its end.
pub proof fn law_address_with_a_host(
    base: Seq<char>,
    slashes: Seq<char>,
    path: Seq<char>,
    query: Option<Seq<char>>,
)
    requires
        forall|i: int| 0 <= i < slashes.len() ==> #[trigger] slashes[i] == '/',
        base.len() == 0 || base.last() != '/',
    ensures
        ({
            let parts = UrlView { has_host: true, path, query };
            &&& query is Some || path.len() > 1 ==> upstream_url(base + slashes, Some(parts))
                == base + slashes
            &&& query is None && (path.len() == 0 || path == "/"@) ==> upstream_url(
                base + slashes,
                Some(parts),
            ) == base + "/v1/chat/completions"@
        }),
        upstream_url(base + slashes, None) == base + "/v1/chat/completions"@,
{
    law_trimmed_end(base, slashes, '/');
    lemma_encode_concat(path, Seq::empty());
    reveal_strlit("/");
    if path == "/"@ {
        assert(is_ascii_chars(path));
        is_ascii_chars_encode_utf8(path);
    }
}

/// An address without a host, such as `host:port`, is used as it is where something follows the
/// first slash in what reads as its path, or where it has a query; else it gets the usual route, in
/// place of the slashes at its end.
pub proof fn law_address_without_a_host(
    base: Seq<char>,
    slashes: Seq<char>,
    before: Seq<char>,
    after: Seq<char>,
    query: Option<Seq<char>>,
)
    requires
        forall|i: int| 0 <= i < slashes.len() ==> #[trigger] slashes[i] == '/',
        base.len() == 0 || base.last() != '/',
        forall|i: int| 0 <= i < before.len() ==> #[trigger] before[i] != '/',
    ensures
        ({
            let bare = UrlView { has_host: false, path: before, query };
            let long = UrlView { has_host: false, path: before + seq!['/'] + after, query };
            let usual = base + "/v1/chat/completions"@;
            &&& query is Some ==> upstream_url(base + slashes, Some(bare)) == base + slashes
            &&& query is Some || after.len() > 0 ==> upstream_url(base + slashes, Some(long))
                == base + slashes
            &&& query is None ==> upstream_url(base + slashes, Some(bare)) == usual
            &&& query is None && after.len() == 0 ==> upstream_url(base + slashes, Some(long))
                == usual
        }),
{
    law_trimmed_end(base, slashes, '/');
    lemma_position(before, '/');
    let path = before + seq!['/'] + after;
    assert(path[before.len() as int] == '/');
    lemma_position_is(path, '/', before.len() as int);
    let rest = path.skip(before.len() as int);
    assert(rest =~= seq!['/'] + after);
    lemma_encode_concat(rest, Seq::empty());
    if after.len() == 0 {
        assert(is_ascii_chars(rest));
        is_ascii_chars_encode_utf8(rest);
    }
    assert(is_ascii_chars(Seq::<char>::empty()));
    is_ascii_chars_encode_utf8(Seq::<char>::empty());
}

/// Of the fields of an object with one name the last counts; a name that no field bears is not
/// there.
pub proof fn law_last_field_counts(
    entries: Seq<(String, JsonValue)>,
    i: int,
    name: Seq<char>,
)
    ensures
        0 <= i < entries.len() && entries[i].0@ == name && (forall|j: int|
            i < j < entries.len() ==> (#[trigger] entries[j]).0@ != name) ==> fields(
            entries,
        ).contains_key(name) && fields(entries)[name] == entries[i].1@,
        (forall|j: int| 0 <= j < entries.len() ==> (#[trigger] entries[j]).0@ != name) ==> !fields(
            entries,
        ).contains_key(name),
{
    if 0 <= i < entries.len() && entries[i].0@ == name && (forall|j: int|
        i < j < entries.len() ==> (#[trigger] entries[j]).0@ != name) {
        lemma_fields_last(entries, i);
    }
    if forall|j: int| 0 <= j < entries.len() ==> (#[trigger] entries[j]).0@ != name {
        lemma_fields_absent(entries, name);
    }
}

/// What a value stands for, by its kind.
pub proof fn law_what_a_value_stands_for(
    b: bool,
    n: serde_json::Number,
    s: String,
    items: Vec<JsonValue>,
    i: int,
)
    requires
        0 <= i < items@.len(),
    ensures
        JsonValue::Null@ == Json::Null,
        JsonValue::Bool(b)@ == Json::Bool(b),
        JsonValue::Number(n)@ == Json::Number(n),
        JsonValue::Str(s)@ == Json::Str(s@),
        JsonValue::Array(items)@ is Array,
        JsonValue::Array(items)@->Array_0.len() == items@.len(),
        JsonValue::Array(items)@->Array_0[i] == items@[i]@,
{
}

/// What is read off a value: a field of an object that has it, an element of an array that is long
/// enough, the characters of a string; nothing off anything else.
pub proof fn law_reading_a_value(
    map: Map<Seq<char>, Json>,
    name: Seq<char>,
    items: Seq<Json>,
    i: int,
    json: Json,
)
    ensures
        map.contains_key(name) ==> Json::Object(map).field(name) == Some(map[name]),
        !map.contains_key(name) ==> Json::Object(map).field(name) is None,
        !(json is Object) ==> json.field(name) is None,
        0 <= i < items.len() ==> Json::Array(items).element(i) == Some(items[i]),
        i >= items.len() ==> Json::Array(items).element(i) is None,
        !(json is Array) ==> json.element(i) is None,
        json is Str ==> json.text() == Some(json->Str_0),
        !(json is Str) ==> json.text() is None,
{
}

/// What optional and listed values stand for is what each of them stands for.
pub proof fn law_optional_and_listed_values(
    v: &JsonValue,
    owned: JsonValue,
    s: &str,
    items: Seq<JsonValue>,
    i: int,
)
    requires
        0 <= i < items.len(),
    ensures
        opt_json(Some(v)) == Some(v@),
        opt_json(None) is None,
        opt_owned_json(Some(owned)) == Some(owned@),
        opt_owned_json(None) is None,
        opt_chars(Some(s)) == Some(s@),
        opt_chars(None) is None,
        jsons(items).len() == items.len(),
        jsons(items)[i] == items[i]@,
{
}

/// What the parts of an address hold is what was read off it.
pub proof fn law_parts_of_an_address(parts: UrlParts, query: String)
    ensures
        parts_view(None) is None,
        ({
            let view = parts_view(Some(parts));
            &&& view is Some
            &&& view->0.has_host == parts.has_host
            &&& view->0.path == parts.path@
            &&& parts.query == Some(query) ==> view->0.query == Some(query@)
            &&& parts.query is None ==> view->0.query is None
        }),
{
}

/// Where the names in a value are sorted, no field of an object in it comes before one with a
/// smaller name, by the bytes of the names; and the names are sorted in every field and element.
pub proof fn law_sorted_names(v: JsonValue, i: int, j: int)
    requires
        names_sorted(v),
        0 <= i < j,
    ensures
        v is Object && j < v->Object_0.entries@.len() ==> !bytes_less(
            encode_utf8(v->Object_0.entries@[j].0@),
            encode_utf8(v->Object_0.entries@[i].0@),
        ),
        v is Object && j < v->Object_0.entries@.len() ==> names_sorted(v->Object_0.entries@[j].1),
        v is Object && i < v->Object_0.entries@.len() ==> names_sorted(v->Object_0.entries@[i].1),
        v is Array && i < v->Array_0@.len() ==> names_sorted(v->Array_0@[i]),
{
}

/// The order of byte strings is decided by the first byte in which they differ; a byte string comes
/// before its continuations, and not before itself.
pub proof fn law_order_of_bytes(common: Seq<u8>, x: u8, a: Seq<u8>, y: u8, b: Seq<u8>)
    ensures
        x < y ==> bytes_less(common + (seq![x] + a), common + (seq![y] + b)),
        x < y ==> !bytes_less(common + (seq![y] + b), common + (seq![x] + a)),
        bytes_less(common, common + (seq![x] + a)),
        !bytes_less(common + (seq![x] + a), common),
        !bytes_less(common, common),
    decreases common.len(),
{
    let long = common + (seq![x] + a);
    let other = common + (seq![y] + b);
    if common.len() > 0 {
        assert(long.drop_first() =~= common.drop_first() + (seq![x] + a));
        assert(other.drop_first() =~= common.drop_first() + (seq![y] + b));
        law_order_of_bytes(common.drop_first(), x, a, y, b);
    } else {
        assert(long =~= seq![x] + a);
        assert(other =~= seq![y] + b);
    }
}

} // verus!

//! The token usage that is reported to the client.

use vstd::prelude::*;
use vstd::string::*;

use crate::json::{Json, JsonValue, Object};
use crate::number::{from_u64, number_of};

verus! {

/// The number that a field holds, if it holds one.
pub open spec fn number_in(json: Json, name: Seq<char>) -> Option<serde_json::Number> {
    match json.field(name) {
        Some(Json::Number(n)) => Some(n),
        _ => None,
    }
}

/// The details of the prompt tokens.
pub open spec fn details_of(usage: Json) -> Json {
    match usage.field("prompt_tokens_details"@) {
        Some(details) => details,
        None => Json::Null,
    }
}

/// An object with another number in a field, if the field holds a number and there is another.
pub open spec fn with_number(json: Json, name: Seq<char>, n: Option<u64>) -> Json {
    match json {
        Json::Object(map) => if number_in(json, name) is Some && n is Some {
            Json::Object(map.insert(name, Json::Number(number_of(n->0))))
        } else {
            json
        },
        _ => json,
    }
}

/// A usage report with other counts of tokens that came from the upstream's prompt cache, where
/// it has such counts.
pub open spec fn with_cached_tokens(
    usage: Json,
    hit_tokens: Option<u64>,
    cached_tokens: Option<u64>,
) -> Json {
    let top = with_number(usage, "prompt_cache_hit_tokens"@, hit_tokens);
    match top {
        Json::Object(map) => if map.contains_key("prompt_tokens_details"@) {
            Json::Object(
                map.insert(
                    "prompt_tokens_details"@,
                    with_number(map["prompt_tokens_details"@], "cached_tokens"@, cached_tokens),
                ),
            )
        } else {
            top
        },
        _ => top,
    }
}

/// The counts of tokens that came from the upstream's prompt cache.
pub struct CachedTokens {
    /// `prompt_cache_hit_tokens`.
    pub hit_tokens: Option<serde_json::Number>,
    /// `prompt_tokens_details.cached_tokens`.
    pub cached_tokens: Option<serde_json::Number>,
}

/// The number that a field holds.
fn read_number(value: &JsonValue, name: &str) -> (r: Option<serde_json::Number>)
    ensures
        r == number_in(value@, name@),
{
    match value.get(name) {
        Some(JsonValue::Number(n)) => Some(n.clone()),
        _ => None,
    }
}

/// The counts of tokens that came from the upstream's prompt cache, as a usage report gives them.
pub fn cached_tokens(usage: &JsonValue) -> (r: CachedTokens)
    ensures
        r.hit_tokens == number_in(usage@, "prompt_cache_hit_tokens"@),
        r.cached_tokens == number_in(details_of(usage@), "cached_tokens"@),
{
    CachedTokens {
        hit_tokens: read_number(usage, "prompt_cache_hit_tokens"),
        cached_tokens: match usage.get("prompt_tokens_details") {
            Some(details) => read_number(details, "cached_tokens"),
            None => None,
        },
    }
}

/// Replaces the number in a field.
fn set_number(value: &mut JsonValue, name: &str, n: Option<u64>)
    ensures
        final(value)@ == with_number(old(value)@, name@, n),
{
    if let Some(n) = n {
        if read_number(value, name).is_some() {
            match value {
                JsonValue::Object(object) => {
                    object.insert(name, JsonValue::Number(from_u64(n)));
                },
                _ => {},
            }
        }
    }
}

/// Replaces the counts of tokens that came from the upstream's prompt cache by discounted ones,
/// where the report has such counts.
pub fn apply_cache_hit_discount(
    usage: &mut JsonValue,
    hit_tokens: Option<u64>,
    cached_tokens: Option<u64>,
)
    ensures
        final(usage)@ == with_cached_tokens(old(usage)@, hit_tokens, cached_tokens),
{
    set_number(usage, "prompt_cache_hit_tokens", hit_tokens);
    match usage {
        JsonValue::Object(object) => {
            let ghost map = object@;
            if let Some(taken) = object.remove("prompt_tokens_details") {
                let mut details = taken;
                set_number(&mut details, "cached_tokens", cached_tokens);
                object.insert("prompt_tokens_details", details);
                assert(object@ =~= map.insert("prompt_tokens_details"@, details@));
            } else {
                assert(object@ =~= map);
            }
        },
        _ => {},
    }
}

/// Without discounted counts a usage report stays as it is.
pub proof fn law_no_discount(usage: Json)
    ensures
        with_cached_tokens(usage, None, None) == usage,
{
    match usage {
        Json::Object(map) => {
            if map.contains_key("prompt_tokens_details"@) {
                assert(map.insert("prompt_tokens_details"@, map["prompt_tokens_details"@]) =~= map);
            }
        },
        _ => {},
    }
}

/// A discount changes no other count.
pub proof fn law_discount_keeps_other_counts(
    usage: Json,
    hit_tokens: Option<u64>,
    cached_tokens: Option<u64>,
    name: Seq<char>,
)
    requires
        name != "prompt_cache_hit_tokens"@,
        name != "prompt_tokens_details"@,
    ensures
        with_cached_tokens(usage, hit_tokens, cached_tokens).field(name) == usage.field(name),
{
}

/// The report for an answer to which the upstream gave none: no tokens at all.
pub open spec fn empty_usage() -> Json {
    Json::Object(
        Map::empty().insert("prompt_tokens"@, Json::Number(number_of(0))).insert(
            "completion_tokens"@,
            Json::Number(number_of(0)),
        ).insert("total_tokens"@, Json::Number(number_of(0))),
    )
}

/// The usage to report: what the upstream reported, or no tokens at all.
pub open spec fn reported_usage(usage: Json) -> Json {
    if usage == Json::Null {
        empty_usage()
    } else {
        usage
    }
}

/// The usage to report: what the upstream reported, or no tokens at all.
pub fn usage_or_empty(usage: JsonValue) -> (r: JsonValue)
    ensures
        r@ == reported_usage(usage@),
{
    if usage.is_null() {
        let mut object = Object::new();
        object.insert("prompt_tokens", JsonValue::Number(from_u64(0)));
        object.insert("completion_tokens", JsonValue::Number(from_u64(0)));
        object.insert("total_tokens", JsonValue::Number(from_u64(0)));
        JsonValue::Object(object)
    } else {
        usage
    }
}

} // verus!

//! Cache keys of requests.

use vstd::prelude::*;
use vstd::string::*;

use crate::digest::{fingerprint, fingerprint_of};
use crate::interop::{json_text, tells_apart, to_text};
use crate::json::{Json, JsonValue, Object};

verus! {

/// The key under which the response to a request is cached.
pub type CacheKey = u64;

/// Whether a request has a field `name` that says something: one that is neither `null` nor an
/// empty array.
pub open spec fn is_set(request: Map<Seq<char>, Json>, name: Seq<char>) -> bool {
    &&& request.contains_key(name)
    &&& request[name] != Json::Null
    &&& request[name] != Json::Array(Seq::empty())
}

/// The fields that bear on what the model answers. The first two are those without which a
/// request is not cached.
pub open spec fn key_names() -> Seq<Seq<char>> {
    seq![
        "model"@,
        "messages"@,
        "temperature"@,
        "top_p"@,
        "frequency_penalty"@,
        "presence_penalty"@,
        "seed"@,
        "stop"@,
        "tools"@,
        "tool_choice"@,
        "parallel_tool_calls"@,
        "response_format"@,
        "logit_bias"@,
        "max_tokens"@,
        "max_completion_tokens"@,
        "logprobs"@,
        "n"@,
        "stream_options"@,
    ]
}

/// The fields of a request that say something and whose names are among `names`.
pub open spec fn selected(
    request: Map<Seq<char>, Json>,
    names: Seq<Seq<char>>,
) -> Map<Seq<char>, Json> {
    Map::new(
        |name: Seq<char>| names.contains(name) && is_set(request, name),
        |name: Seq<char>| request[name],
    )
}

/// The cache key of a request: the fingerprint of the part that bears on the answer. A request
/// without a model or without messages has none.
pub open spec fn cache_key(request: Json) -> Option<CacheKey> {
    match request {
        Json::Object(map) => if is_set(map, "model"@) && is_set(map, "messages"@) {
            Some(fingerprint_of(json_text(Json::Object(selected(map, key_names())))))
        } else {
            None
        },
        _ => None,
    }
}

/// The fields that bear on what the model answers.
fn key_name_list() -> (r: Vec<&'static str>)
    ensures
        r.len() == key_names().len(),
        forall|j: int| 0 <= j < r.len() ==> r@[j]@ == key_names()[j],
{
    vec![
        "model",
        "messages",
        "temperature",
        "top_p",
        "frequency_penalty",
        "presence_penalty",
        "seed",
        "stop",
        "tools",
        "tool_choice",
        "parallel_tool_calls",
        "response_format",
        "logit_bias",
        "max_tokens",
        "max_completion_tokens",
        "logprobs",
        "n",
        "stream_options",
    ]
}

/// Whether `request` has a field `name` that says something.
fn has_set(request: &Object, name: &str) -> (r: bool)
    ensures
        r == is_set(request@, name@),
{
    match request.get(name) {
        Some(value) => !value.is_null() && !value.is_empty_array(),
        None => false,
    }
}

/// Copies the field `name` of `request` to `key`, if it says something.
fn copy_field(request: &Object, name: &str, key: &mut Object)
    ensures
        final(key)@ == if is_set(request@, name@) {
            old(key)@.insert(name@, request@[name@])
        } else {
            old(key)@
        },
{
    if has_set(request, name) {
        if let Some(value) = request.get(name) {
            key.insert(name, value.clone());
        }
    }
}

/// The part of a request that bears on the answer.
pub open spec fn key_material(request: Json) -> Json {
    match request {
        Json::Object(map) => Json::Object(selected(map, key_names())),
        _ => Json::Null,
    }
}

/// The cache key of a request. What is hashed tells requests apart that differ in what bears on the
/// answer, as far as texts tell JSON values apart.
pub fn compute_cache_key(data: &JsonValue) -> (r: Option<CacheKey>)
    ensures
        r == cache_key(data@),
        r is Some ==> r == Some(fingerprint_of(json_text(key_material(data@)))) && tells_apart(
            json_text(key_material(data@)),
            key_material(data@),
        ),
{
    match data.as_object() {
        Some(request) => {
            if !has_set(request, "model") || !has_set(request, "messages") {
                return None;
            }
            let names = key_name_list();
            let mut key = Object::new();
            let mut i: usize = 0;
            assert(key@ =~= selected(request@, key_names().take(0)));
            while i < names.len()
                invariant
                    i <= names.len(),
                    names.len() == key_names().len(),
                    forall|j: int| 0 <= j < names.len() ==> names@[j]@ == key_names()[j],
                    key@ == selected(request@, key_names().take(i as int)),
                decreases names.len() - i,
            {
                copy_field(request, names[i], &mut key);
                proof {
                    let before = key_names().take(i as int);
                    let after = key_names().take(i + 1);
                    assert(after =~= before.push(key_names()[i as int]));
                    assert forall|name: Seq<char>| after.contains(name) <==> (before.contains(name)
                        || name == key_names()[i as int]) by {
                        if before.contains(name) {
                            let j = choose|j: int| 0 <= j < before.len() && before[j] == name;
                            assert(after[j] == name);
                        }
                        if name == key_names()[i as int] {
                            assert(after[i as int] == name);
                        }
                    }
                    assert(key@ =~= selected(request@, after));
                }
                i = i + 1;
            }
            assert(key_names().take(i as int) =~= key_names());
            let text = to_text(&JsonValue::Object(key));
            Some(fingerprint(text.as_str()))
        },
        None => None,
    }
}

} // verus!

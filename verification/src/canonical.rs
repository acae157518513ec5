//! Canonical form of a response: what is left when the fields that change with every call are
//! taken out.

use vstd::prelude::*;
use vstd::string::*;

use crate::digest::{fingerprint, fingerprint_of};
use crate::interop::{json_text, tells_apart, to_text};
use crate::json::{jsons, lemma_array_view, Json, JsonValue, Object};
use crate::sorting::{names_sorted, sort_object_keys};

verus! {

/// `map` with its field `name`, if it has one, replaced by `change` of its value.
pub open spec fn changed(
    map: Map<Seq<char>, Json>,
    name: Seq<char>,
    change: spec_fn(Json) -> Json,
) -> Map<Seq<char>, Json> {
    if map.contains_key(name) {
        map.insert(name, change(map[name]))
    } else {
        map
    }
}

/// `json` with every element changed, if it is an array.
pub open spec fn each(json: Json, change: spec_fn(Json) -> Json) -> Json {
    match json {
        Json::Array(items) => Json::Array(items.map_values(change)),
        _ => json,
    }
}

/// A tool call without its `id`.
pub open spec fn canonical_tool_call(json: Json) -> Json {
    match json {
        Json::Object(map) => Json::Object(map.remove("id"@)),
        _ => json,
    }
}

/// A message without its `id` and without those of its tool calls.
pub open spec fn canonical_message(json: Json) -> Json {
    match json {
        Json::Object(map) => Json::Object(
            changed(
                map.remove("id"@),
                "tool_calls"@,
                |calls: Json| each(calls, |call: Json| canonical_tool_call(call)),
            ),
        ),
        _ => json,
    }
}

/// A choice without its `id`, its `message` and `delta` in canonical form.
pub open spec fn canonical_choice(json: Json) -> Json {
    match json {
        Json::Object(map) => Json::Object(
            changed(
                changed(map.remove("id"@), "message"@, |m: Json| canonical_message(m)),
                "delta"@,
                |m: Json| canonical_message(m),
            ),
        ),
        _ => json,
    }
}

/// The fields at the top of a response that change with every call.
pub open spec fn is_volatile(name: Seq<char>) -> bool {
    ||| name == "id"@
    ||| name == "object"@
    ||| name == "created"@
    ||| name == "usage"@
    ||| name == "system_fingerprint"@
    ||| name == "service_tier"@
    ||| name == "request_id"@
}

/// `map` without the fields that change with every call.
pub open spec fn stable_fields(map: Map<Seq<char>, Json>) -> Map<Seq<char>, Json> {
    map.remove_keys(Set::new(|name: Seq<char>| is_volatile(name)))
}

/// A response without the fields that change with every call, at the top and in its choices.
pub open spec fn canonical_response(json: Json) -> Json {
    match json {
        Json::Object(map) => Json::Object(
            changed(
                stable_fields(map),
                "choices"@,
                |choices: Json| each(choices, |choice: Json| canonical_choice(choice)),
            ),
        ),
        _ => json,
    }
}

/// Takes the `id` out of a tool call.
fn canonicalize_tool_call(call: &mut JsonValue)
    ensures
        final(call)@ == canonical_tool_call(old(call)@),
{
    match call {
        JsonValue::Object(object) => {
            object.remove("id");
        },
        _ => {},
    }
}

/// Puts the tool calls of a message into canonical form.
fn canonicalize_tool_calls(calls: &mut JsonValue)
    ensures
        final(calls)@ == each(old(calls)@, |call: Json| canonical_tool_call(call)),
{
    let ghost before = *calls;
    match calls {
        JsonValue::Array(items) => {
            let ghost all = items@;
            let mut i: usize = 0;
            while i < items.len()
                invariant
                    i <= items.len(),
                    items.len() == all.len(),
                    forall|j: int|
                        0 <= j < i ==> items@[j].json() == canonical_tool_call(all[j].json()),
                    forall|j: int| i <= j < all.len() ==> items@[j] == all[j],
                decreases items.len() - i,
            {
                canonicalize_tool_call(&mut items[i]);
                i = i + 1;
            }
            proof {
                lemma_array_view(before);
                assert(jsons(items@) =~= jsons(all).map_values(
                    |call: Json| canonical_tool_call(call),
                ));
            }
        },
        _ => {},
    }
    proof {
        if before is Array {
            lemma_array_view(*calls);
        }
    }
}

/// Puts a message into canonical form.
fn canonicalize_message(message: &mut JsonValue)
    ensures
        final(message)@ == canonical_message(old(message)@),
{
    match message {
        JsonValue::Object(object) => {
            object.remove("id");
            let ghost stripped = object@;
            if let Some(taken) = object.remove("tool_calls") {
                let mut calls = taken;
                canonicalize_tool_calls(&mut calls);
                object.insert("tool_calls", calls);
                assert(object@ =~= stripped.insert("tool_calls"@, calls@));
            } else {
                assert(object@ =~= stripped);
            }
        },
        _ => {},
    }
}

/// Puts a choice into canonical form.
fn canonicalize_choice(choice: &mut JsonValue)
    ensures
        final(choice)@ == canonical_choice(old(choice)@),
{
    match choice {
        JsonValue::Object(object) => {
            object.remove("id");
            canonicalize_slot(object, "message");
            canonicalize_slot(object, "delta");
        },
        _ => {},
    }
}

/// Puts the message in the field `slot`, if there is one, into canonical form.
fn canonicalize_slot(object: &mut Object, slot: &str)
    ensures
        final(object)@ == changed(old(object)@, slot@, |m: Json| canonical_message(m)),
{
    let ghost before = object@;
    if let Some(taken) = object.remove(slot) {
        let mut message = taken;
        canonicalize_message(&mut message);
        object.insert(slot, message);
        assert(object@ =~= before.insert(slot@, message@));
    } else {
        assert(object@ =~= before);
    }
}

/// Puts the choices of a response into canonical form.
fn canonicalize_choices(choices: &mut JsonValue)
    ensures
        final(choices)@ == each(old(choices)@, |choice: Json| canonical_choice(choice)),
{
    let ghost before = *choices;
    match choices {
        JsonValue::Array(items) => {
            let ghost all = items@;
            let mut i: usize = 0;
            while i < items.len()
                invariant
                    i <= items.len(),
                    items.len() == all.len(),
                    forall|j: int|
                        0 <= j < i ==> items@[j].json() == canonical_choice(all[j].json()),
                    forall|j: int| i <= j < all.len() ==> items@[j] == all[j],
                decreases items.len() - i,
            {
                canonicalize_choice(&mut items[i]);
                i = i + 1;
            }
            proof {
                lemma_array_view(before);
                assert(jsons(items@) =~= jsons(all).map_values(
                    |choice: Json| canonical_choice(choice),
                ));
            }
        },
        _ => {},
    }
    proof {
        if before is Array {
            lemma_array_view(*choices);
        }
    }
}

/// Puts a response into canonical form.
pub fn canonicalize_response(value: &mut JsonValue)
    ensures
        final(value)@ == canonical_response(old(value)@),
        names_sorted(*final(value)),
{
    match value {
        JsonValue::Object(object) => {
            let ghost all = object@;
            object.remove("id");
            object.remove("object");
            object.remove("created");
            object.remove("usage");
            object.remove("system_fingerprint");
            object.remove("service_tier");
            object.remove("request_id");
            let ghost stripped = object@;
            assert(stripped =~= stable_fields(all));
            if let Some(taken) = object.remove("choices") {
                let mut choices = taken;
                canonicalize_choices(&mut choices);
                object.insert("choices", choices);
                assert(object@ =~= stripped.insert("choices"@, choices@));
            } else {
                assert(object@ =~= stripped);
            }
        },
        _ => {},
    }
    sort_object_keys(value);
}

/// The fingerprint of what a response says: two responses that differ only in the fields that
/// change with every call, or in the order of their fields, have the same one.
pub open spec fn response_fingerprint(json: Json) -> u64 {
    fingerprint_of(json_text(canonical_response(json)))
}

/// The fingerprint of what a response says. What is hashed tells responses of different content
/// apart, as far as texts tell JSON values apart.
pub fn hash_value(value: &JsonValue) -> (r: u64)
    ensures
        r == response_fingerprint(value@),
        tells_apart(json_text(canonical_response(value@)), canonical_response(value@)),
{
    let mut canonical = value.clone();
    canonicalize_response(&mut canonical);
    let text = to_text(&canonical);
    fingerprint(text.as_str())
}

} // verus!

//! Laws of fingerprints and cache keys: what they depend on and what they do not.

use vstd::prelude::*;

use crate::canonical::{
    canonical_choice, canonical_message, canonical_response, canonical_tool_call, changed, each,
    is_volatile, response_fingerprint, stable_fields,
};
use crate::digest::fingerprint_of;
use crate::interop::{json_text, tells_apart, whole};
use crate::json::{fields, Json, JsonValue};
use crate::key::{cache_key, is_set, key_names, selected};

verus! {

/// The value of the field at `i`, where no other field bears its name.
proof fn lemma_fields_distinct(entries: Seq<(String, JsonValue)>, i: int)
    requires
        forall|a: int, b: int|
            0 <= a < b < entries.len() ==> (#[trigger] entries[a]).0@ != (#[trigger] entries[b]).0@,
        0 <= i < entries.len(),
    ensures
        fields(entries).contains_key(entries[i].0@),
        fields(entries)[entries[i].0@] == entries[i].1.json(),
    decreases entries.len(),
{
    if i < entries.len() - 1 {
        assert(entries.drop_last()[i] == entries[i]);
        lemma_fields_distinct(entries.drop_last(), i);
    }
}

/// A name in the map is the name of a field.
proof fn lemma_fields_named(entries: Seq<(String, JsonValue)>, name: Seq<char>)
    requires
        fields(entries).contains_key(name),
    ensures
        exists|i: int| 0 <= i < entries.len() && (#[trigger] entries[i]).0@ == name,
    decreases entries.len(),
{
    if entries.len() > 0 {
        if entries.last().0@ == name {
            assert(entries[entries.len() - 1].0@ == name);
        } else {
            lemma_fields_named(entries.drop_last(), name);
            let i = choose|i: int|
                0 <= i < entries.drop_last().len() && (#[trigger] entries.drop_last()[i]).0@ == name;
            assert(entries[i].0@ == name);
        }
    }
}

/// The order of the fields of an object is no part of it: two objects with the same fields stand
/// for the same value, and so have the same fingerprint and the same cache key.
pub proof fn law_field_order(a: JsonValue, b: JsonValue)
    requires
        a is Object,
        b is Object,
        forall|i: int, j: int|
            0 <= i < j < a->Object_0.entries@.len() ==> (#[trigger] a->Object_0.entries@[i]).0@ != (
            #[trigger] a->Object_0.entries@[j]).0@,
        forall|i: int, j: int|
            0 <= i < j < b->Object_0.entries@.len() ==> (#[trigger] b->Object_0.entries@[i]).0@ != (
            #[trigger] b->Object_0.entries@[j]).0@,
        forall|i: int|
            0 <= i < a->Object_0.entries@.len() ==> same_field_in(
                #[trigger] a->Object_0.entries@[i],
                b->Object_0.entries@,
            ),
        forall|i: int|
            0 <= i < b->Object_0.entries@.len() ==> same_field_in(
                #[trigger] b->Object_0.entries@[i],
                a->Object_0.entries@,
            ),
    ensures
        a@ == b@,
        response_fingerprint(a@) == response_fingerprint(b@),
        cache_key(a@) == cache_key(b@),
{
    let x = a->Object_0.entries@;
    let y = b->Object_0.entries@;
    assert forall|name: Seq<char>| #[trigger] fields(x).contains_key(name) implies fields(
        y,
    ).contains_key(name) && fields(y)[name] == fields(x)[name] by {
        lemma_fields_named(x, name);
        let i = choose|i: int| 0 <= i < x.len() && (#[trigger] x[i]).0@ == name;
        lemma_fields_distinct(x, i);
        assert(same_field_in(x[i], y));
        let j = choose|j: int|
            0 <= j < y.len() && (#[trigger] y[j]).0@ == x[i].0@ && y[j].1.json() == x[i].1.json();
        lemma_fields_distinct(y, j);
    }
    assert forall|name: Seq<char>| #[trigger] fields(y).contains_key(name) implies fields(
        x,
    ).contains_key(name) by {
        lemma_fields_named(y, name);
        let i = choose|i: int| 0 <= i < y.len() && (#[trigger] y[i]).0@ == name;
        assert(same_field_in(y[i], x));
        let j = choose|j: int|
            0 <= j < x.len() && (#[trigger] x[j]).0@ == y[i].0@ && x[j].1.json() == y[i].1.json();
        lemma_fields_distinct(x, j);
    }
    assert(fields(x) =~= fields(y));
}

/// Whether `entries` has a field with the name and the value of `field`.
pub open spec fn same_field_in(
    field: (String, JsonValue),
    entries: Seq<(String, JsonValue)>,
) -> bool {
    exists|j: int|
        0 <= j < entries.len() && (#[trigger] entries[j]).0@ == field.0@ && entries[j].1.json()
            == field.1.json()
}

/// The fields that change with every call have no part in the fingerprint: neither their values
/// nor whether they are there.
pub proof fn law_fingerprint_ignores_volatile_fields(
    a: Map<Seq<char>, Json>,
    b: Map<Seq<char>, Json>,
)
    requires
        forall|name: Seq<char>| #[trigger] is_volatile(name) || Json::Object(a).field(name)
            == Json::Object(b).field(name),
    ensures
        response_fingerprint(Json::Object(a)) == response_fingerprint(Json::Object(b)),
{
    assert forall|name: Seq<char>|
        stable_fields(a).contains_key(name) <==> stable_fields(b).contains_key(name) by {
        assert(is_volatile(name) || Json::Object(a).field(name) == Json::Object(b).field(name));
    }
    assert forall|name: Seq<char>| #[trigger] stable_fields(a).contains_key(name) implies
        stable_fields(a)[name] == stable_fields(b)[name] by {
        assert(is_volatile(name) || Json::Object(a).field(name) == Json::Object(b).field(name));
    }
    assert(stable_fields(a) =~= stable_fields(b));
}

/// The `id` of a choice, of a message and of a tool call has no part in their canonical forms.
pub proof fn law_canonical_ignores_ids(map: Map<Seq<char>, Json>, id: Json)
    ensures
        canonical_choice(Json::Object(map.insert("id"@, id))) == canonical_choice(
            Json::Object(map),
        ),
        canonical_message(Json::Object(map.insert("id"@, id))) == canonical_message(
            Json::Object(map),
        ),
        canonical_tool_call(Json::Object(map.insert("id"@, id))) == canonical_tool_call(
            Json::Object(map),
        ),
{
    assert(map.insert("id"@, id).remove("id"@) =~= map.remove("id"@));
}

/// Two responses whose choices agree in canonical form, and that agree in every other field that
/// does not change with every call, have the same fingerprint.
pub proof fn law_fingerprint_of_equal_choices(
    map: Map<Seq<char>, Json>,
    a: Seq<Json>,
    b: Seq<Json>,
)
    requires
        a.len() == b.len(),
        forall|i: int| 0 <= i < a.len() ==> canonical_choice(#[trigger] a[i]) == canonical_choice(
            b[i],
        ),
    ensures
        response_fingerprint(Json::Object(map.insert("choices"@, Json::Array(a))))
            == response_fingerprint(Json::Object(map.insert("choices"@, Json::Array(b)))),
{
    let canonical = |choice: Json| canonical_choice(choice);
    let x = stable_fields(map.insert("choices"@, Json::Array(a)));
    let y = stable_fields(map.insert("choices"@, Json::Array(b)));
    assert(a.map_values(canonical) =~= b.map_values(canonical));
    if is_volatile("choices"@) {
        assert(x =~= y);
    } else {
        let change = |choices: Json| each(choices, |choice: Json| canonical_choice(choice));
        assert(changed(x, "choices"@, change) =~= changed(y, "choices"@, change));
    }
}

/// Every field at the top of a response counts, but for those that change with every call and
/// for the choices, which count in their canonical form.
pub proof fn law_canonical_keeps_content(json: Json, name: Seq<char>)
    requires
        json is Object,
        !is_volatile(name),
        name != "choices"@,
    ensures
        canonical_response(json).field(name) == json.field(name),
{
}

/// Of a message everything but its `id` and its tool calls is kept as it is.
pub proof fn law_canonical_keeps_message(json: Json, name: Seq<char>)
    requires
        name != "id"@,
        name != "tool_calls"@,
    ensures
        canonical_message(json).field(name) == json.field(name),
{
}

proof fn lemma_tool_call_idempotent(json: Json)
    ensures
        canonical_tool_call(canonical_tool_call(json)) == canonical_tool_call(json),
{
    match json {
        Json::Object(map) => {
            assert(map.remove("id"@).remove("id"@) =~= map.remove("id"@));
        },
        _ => {},
    }
}

proof fn lemma_message_idempotent(json: Json)
    ensures
        canonical_message(canonical_message(json)) == canonical_message(json),
{
    match json {
        Json::Object(map) => {
            let call = |call: Json| canonical_tool_call(call);
            let change = |calls: Json| each(calls, |call: Json| canonical_tool_call(call));
            let once = changed(map.remove("id"@), "tool_calls"@, change);
            assert(once.remove("id"@) =~= once);
            if once.contains_key("tool_calls"@) {
                let calls = map["tool_calls"@];
                match calls {
                    Json::Array(items) => {
                        assert forall|i: int| 0 <= i < items.len() implies call(call(items[i]))
                            == #[trigger] call(items[i]) by {
                            lemma_tool_call_idempotent(items[i]);
                        }
                        assert(items.map_values(call).map_values(call) =~= items.map_values(call));
                    },
                    _ => {},
                }
                assert(change(change(calls)) == change(calls));
            }
            assert(changed(once, "tool_calls"@, change) =~= once);
        },
        _ => {},
    }
}

proof fn lemma_choice_idempotent(json: Json)
    ensures
        canonical_choice(canonical_choice(json)) == canonical_choice(json),
{
    match json {
        Json::Object(map) => {
            let change = |m: Json| canonical_message(m);
            let first = changed(map.remove("id"@), "message"@, change);
            let once = changed(first, "delta"@, change);
            assert(once.remove("id"@) =~= once);
            lemma_message_idempotent(map["message"@]);
            lemma_message_idempotent(map["delta"@]);
            lemma_message_idempotent(first["delta"@]);
            lemma_message_idempotent(canonical_message(map["message"@]));
            assert(changed(once, "message"@, change) =~= once);
            assert(changed(once, "delta"@, change) =~= once);
        },
        _ => {},
    }
}

/// A canonical form is its own canonical form.
pub proof fn law_canonical_idempotent(json: Json)
    ensures
        canonical_response(canonical_response(json)) == canonical_response(json),
{
    match json {
        Json::Object(map) => {
            let choice = |choice: Json| canonical_choice(choice);
            let change = |choices: Json| each(choices, |choice: Json| canonical_choice(choice));
            let once = changed(stable_fields(map), "choices"@, change);
            assert(stable_fields(once) =~= once);
            if once.contains_key("choices"@) {
                let choices = map["choices"@];
                match choices {
                    Json::Array(items) => {
                        assert forall|i: int| 0 <= i < items.len() implies choice(choice(items[i]))
                            == #[trigger] choice(items[i]) by {
                            lemma_choice_idempotent(items[i]);
                        }
                        assert(items.map_values(choice).map_values(choice) =~= items.map_values(
                            choice,
                        ));
                    },
                    _ => {},
                }
                assert(change(change(choices)) == change(choices));
            }
            assert(changed(once, "choices"@, change) =~= once);
        },
        _ => {},
    }
}

/// Two responses have the same fingerprint if and only if they say the same, unless the hash
/// collides on the two texts: every difference in content is a difference in what is hashed.
/// (`tells_apart` is what [`crate::canonical::hash_value`] ensures of a response.)
pub proof fn law_fingerprint_tells_content_apart(a: Json, b: Json)
    requires
        whole(canonical_response(a)),
        whole(canonical_response(b)),
        tells_apart(json_text(canonical_response(a)), canonical_response(a)),
        json_text(canonical_response(a)) != json_text(canonical_response(b)) ==> fingerprint_of(
            json_text(canonical_response(a)),
        ) != fingerprint_of(json_text(canonical_response(b))),
    ensures
        response_fingerprint(a) == response_fingerprint(b) <==> canonical_response(a)
            == canonical_response(b),
{
}

/// Two requests that agree in the fields that bear on the answer have the same cache key. A field
/// that is `null` or an empty array counts as absent.
pub proof fn law_key_depends_on_key_fields(a: Map<Seq<char>, Json>, b: Map<Seq<char>, Json>)
    requires
        forall|name: Seq<char>| #[trigger] key_names().contains(name) ==> is_set(a, name) == is_set(
            b,
            name,
        ) && (is_set(a, name) ==> a[name] == b[name]),
    ensures
        cache_key(Json::Object(a)) == cache_key(Json::Object(b)),
{
    assert(key_names()[0] == "model"@);
    assert(key_names()[1] == "messages"@);
    assert(key_names().contains("model"@));
    assert(key_names().contains("messages"@));
    assert(selected(a, key_names()) =~= selected(b, key_names()));
}

/// Two requests that differ in a field that bears on the answer are hashed into their cache keys
/// as different values.
pub proof fn law_key_fields_are_told_apart(
    a: Map<Seq<char>, Json>,
    b: Map<Seq<char>, Json>,
    name: Seq<char>,
)
    requires
        key_names().contains(name),
        is_set(a, name),
        is_set(b, name) ==> a[name] != b[name],
    ensures
        selected(a, key_names()) != selected(b, key_names()),
{
    assert(selected(a, key_names()).contains_key(name));
    if selected(b, key_names()).contains_key(name) {
        assert(selected(b, key_names())[name] == b[name]);
    }
}

/// Neither `user` nor `stream` is among the fields that bear on the answer.
proof fn lemma_user_and_stream_are_no_key_fields()
    ensures
        !key_names().contains("user"@),
        !key_names().contains("stream"@),
{
    reveal_strlit("user");
    reveal_strlit("stream");
    reveal_strlit("model");
    reveal_strlit("messages");
    reveal_strlit("temperature");
    reveal_strlit("top_p");
    reveal_strlit("frequency_penalty");
    reveal_strlit("presence_penalty");
    reveal_strlit("seed");
    reveal_strlit("stop");
    reveal_strlit("tools");
    reveal_strlit("tool_choice");
    reveal_strlit("parallel_tool_calls");
    reveal_strlit("response_format");
    reveal_strlit("logit_bias");
    reveal_strlit("max_tokens");
    reveal_strlit("max_completion_tokens");
    reveal_strlit("logprobs");
    reveal_strlit("n");
    reveal_strlit("stream_options");
    let user = "user"@;
    let stream = "stream"@;
    assert("seed"@[0] == 's' && user[0] == 'u');
    assert("stop"@[0] == 's');
    assert forall|i: int| 0 <= i < key_names().len() implies #[trigger] key_names()[i] != user
        && key_names()[i] != stream by {
        assert(user.len() == 4 && stream.len() == 6);
    }
}

/// Who asks, and whether the answer is to be streamed, has no part in the cache key.
pub proof fn law_key_ignores_user_and_stream(map: Map<Seq<char>, Json>, value: Json)
    ensures
        cache_key(Json::Object(map.insert("user"@, value))) == cache_key(Json::Object(map)),
        cache_key(Json::Object(map.insert("stream"@, value))) == cache_key(Json::Object(map)),
        cache_key(Json::Object(map.remove("user"@))) == cache_key(Json::Object(map)),
        cache_key(Json::Object(map.remove("stream"@))) == cache_key(Json::Object(map)),
{
    lemma_user_and_stream_are_no_key_fields();
    law_key_depends_on_key_fields(map.insert("user"@, value), map);
    law_key_depends_on_key_fields(map.insert("stream"@, value), map);
    law_key_depends_on_key_fields(map.remove("user"@), map);
    law_key_depends_on_key_fields(map.remove("stream"@), map);
}

/// A field that is `null` or an empty array counts as absent.
pub proof fn law_key_ignores_empty_fields(map: Map<Seq<char>, Json>, name: Seq<char>)
    ensures
        cache_key(Json::Object(map.insert(name, Json::Null))) == cache_key(
            Json::Object(map.remove(name)),
        ),
        cache_key(Json::Object(map.insert(name, Json::Array(Seq::empty())))) == cache_key(
            Json::Object(map.remove(name)),
        ),
{
    law_key_depends_on_key_fields(map.insert(name, Json::Null), map.remove(name));
    law_key_depends_on_key_fields(
        map.insert(name, Json::Array(Seq::empty())),
        map.remove(name),
    );
}

/// A request without a model or without messages is not cached.
pub proof fn law_no_key_without_model_and_messages(map: Map<Seq<char>, Json>)
    ensures
        cache_key(Json::Object(map)) is Some <==> is_set(map, "model"@) && is_set(
            map,
            "messages"@,
        ),
{
}

} // verus!

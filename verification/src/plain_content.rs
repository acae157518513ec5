//! What cache keys and fingerprints depend on, in plain terms: fields by their names, and values by
//! what they are.

use vstd::prelude::*;
use vstd::string::*;
use vstd::utf8::*;

use crate::canonical::{canonical_response, response_fingerprint};
use crate::digest::{blake3_of, le_number};
use crate::interop::json_text;
use crate::json::Json;
use crate::key::{cache_key, key_material, key_names, selected};

verus! {

/// The names of the fields that bear on what the model answers.
pub open spec fn bears_on_answer(name: Seq<char>) -> bool {
    ||| name == "model"@
    ||| name == "messages"@
    ||| name == "temperature"@
    ||| name == "top_p"@
    ||| name == "frequency_penalty"@
    ||| name == "presence_penalty"@
    ||| name == "seed"@
    ||| name == "stop"@
    ||| name == "tools"@
    ||| name == "tool_choice"@
    ||| name == "parallel_tool_calls"@
    ||| name == "response_format"@
    ||| name == "logit_bias"@
    ||| name == "max_tokens"@
    ||| name == "max_completion_tokens"@
    ||| name == "logprobs"@
    ||| name == "n"@
    ||| name == "stream_options"@
}

proof fn lemma_key_names(name: Seq<char>)
    ensures
        key_names().contains(name) <==> bears_on_answer(name),
{
    let names = key_names();
    assert(names[0] == "model"@ && names[1] == "messages"@ && names[2] == "temperature"@
        && names[3] == "top_p"@ && names[4] == "frequency_penalty"@ && names[5]
        == "presence_penalty"@ && names[6] == "seed"@ && names[7] == "stop"@ && names[8]
        == "tools"@ && names[9] == "tool_choice"@ && names[10] == "parallel_tool_calls"@
        && names[11] == "response_format"@ && names[12] == "logit_bias"@ && names[13]
        == "max_tokens"@ && names[14] == "max_completion_tokens"@ && names[15] == "logprobs"@
        && names[16] == "n"@ && names[17] == "stream_options"@);
    assert(names.len() == 18);
}

/// Whether a value says nothing: it is `null`, or an array without elements.
pub open spec fn says_nothing(value: Json) -> bool {
    ||| value is Null
    ||| value is Array && value->Array_0.len() == 0
}

proof fn lemma_says_nothing(value: Json)
    ensures
        says_nothing(value) <==> value == Json::Null || value == Json::Array(Seq::empty()),
{
    if value is Array && value->Array_0.len() == 0 {
        assert(value->Array_0 =~= Seq::empty());
    }
}

/// What is hashed into the cache key of a request: exactly the fields that bear on the answer and
/// say something, each with its value as it is.
pub proof fn law_what_is_hashed(map: Map<Seq<char>, Json>, name: Seq<char>)
    ensures
        key_material(Json::Object(map)) is Object,
        key_material(Json::Object(map))->Object_0.contains_key(name) <==> bears_on_answer(name)
            && map.contains_key(name) && !says_nothing(map[name]),
        key_material(Json::Object(map))->Object_0.contains_key(name) ==> key_material(
            Json::Object(map),
        )->Object_0[name] == map[name],
{
    lemma_key_names(name);
    lemma_says_nothing(map[name]);
}

/// A request has a cache key exactly if it is an object with a model and messages that are neither
/// `null` nor an array without elements. The key is the hash of the text of what bears on the
/// answer.
pub proof fn law_when_there_is_a_key(request: Json)
    ensures
        cache_key(request) is Some <==> {
            &&& request is Object
            &&& request->Object_0.contains_key("model"@)
            &&& !says_nothing(request->Object_0["model"@])
            &&& request->Object_0.contains_key("messages"@)
            &&& !says_nothing(request->Object_0["messages"@])
        },
        cache_key(request) is Some ==> cache_key(request) == Some(
            le_number(blake3_of(encode_utf8(json_text(key_material(request))))),
        ),
{
    if request is Object {
        lemma_says_nothing(request->Object_0["model"@]);
        lemma_says_nothing(request->Object_0["messages"@]);
    }
}

/// Two requests are hashed as different values where one has a field that bears on the answer with
/// a value that is neither `null` nor an array without elements, and the other has it with another
/// value, or not at all.
pub proof fn law_different_requests_are_hashed_differently(
    a: Map<Seq<char>, Json>,
    b: Map<Seq<char>, Json>,
    name: Seq<char>,
)
    requires
        bears_on_answer(name),
        a.contains_key(name),
        a[name] != Json::Null,
        a[name] != Json::Array(Seq::empty()),
        !b.contains_key(name) || b[name] != a[name],
    ensures
        key_material(Json::Object(a)) != key_material(Json::Object(b)),
{
    lemma_says_nothing(a[name]);
    law_what_is_hashed(a, name);
    law_what_is_hashed(b, name);
}

/// Two requests that have the same values in all fields that bear on the answer are hashed as the
/// same value, and have the same key. A field that is `null` or an array without elements is the
/// same as none.
pub proof fn law_equal_requests_have_equal_keys(
    a: Map<Seq<char>, Json>,
    b: Map<Seq<char>, Json>,
)
    requires
        forall|name: Seq<char>| #[trigger]
            bears_on_answer(name) ==> {
                let in_a = a.contains_key(name) && !says_nothing(a[name]);
                let in_b = b.contains_key(name) && !says_nothing(b[name]);
                in_a == in_b && (in_a ==> a[name] == b[name])
            },
    ensures
        key_material(Json::Object(a)) == key_material(Json::Object(b)),
        cache_key(Json::Object(a)) == cache_key(Json::Object(b)),
{
    assert forall|name: Seq<char>|
        #![trigger selected(a, key_names()).contains_key(name)]
        #![trigger selected(b, key_names()).contains_key(name)]
        selected(a, key_names()).contains_key(name) == selected(b, key_names()).contains_key(name)
            && (selected(a, key_names()).contains_key(name) ==> selected(a, key_names())[name]
            == selected(b, key_names())[name]) by {
        law_what_is_hashed(a, name);
        law_what_is_hashed(b, name);
        assert(bears_on_answer(name) ==> true);
    }
    assert(selected(a, key_names()) =~= selected(b, key_names()));
    law_when_there_is_a_key(Json::Object(a));
    law_when_there_is_a_key(Json::Object(b));
    assert(bears_on_answer("model"@));
    assert(bears_on_answer("messages"@));
}

/// The fields at the top of a response that change with every call.
pub open spec fn changes_with_every_call(name: Seq<char>) -> bool {
    ||| name == "id"@
    ||| name == "object"@
    ||| name == "created"@
    ||| name == "usage"@
    ||| name == "system_fingerprint"@
    ||| name == "service_tier"@
    ||| name == "request_id"@
}

/// At the top of a response, the fields that change with every call are left out; every other field
/// stays as it is, but for choices that are an array. A response that is no object stays as it is.
pub proof fn law_top_of_canonical_response(
    map: Map<Seq<char>, Json>,
    name: Seq<char>,
    other: Json,
)
    requires
        !(other is Object),
    ensures
        canonical_response(other) == other,
        canonical_response(Json::Object(map)) is Object,
        ({
            let top = canonical_response(Json::Object(map))->Object_0;
            &&& changes_with_every_call(name) ==> !top.contains_key(name)
            &&& !changes_with_every_call(name) ==> top.contains_key(name) == map.contains_key(name)
            &&& !changes_with_every_call(name) && map.contains_key(name) && !(name == "choices"@
                && map[name] is Array) ==> top[name] == map[name]
        }),
{
    reveal_strlit("choices");
    reveal_strlit("id");
    reveal_strlit("object");
    reveal_strlit("created");
    reveal_strlit("usage");
    reveal_strlit("system_fingerprint");
    reveal_strlit("service_tier");
    reveal_strlit("request_id");
    assert("choices"@[0] == 'c');
    assert("created"@[1] == 'r' && "choices"@[1] == 'h');
}

/// The choice at `c` of a canonical response.
pub open spec fn canonical_choice_at(map: Map<Seq<char>, Json>, c: int) -> Json {
    canonical_response(Json::Object(map))->Object_0["choices"@]->Array_0[c]
}

/// There are as many choices as before. Of each choice only the `id` is left out; every other field
/// stays, as it is, but for a `message` or `delta` that is an object. A choice that is no object
/// stays as it is.
pub proof fn law_choices_of_canonical_response(
    map: Map<Seq<char>, Json>,
    choices: Seq<Json>,
    c: int,
    name: Seq<char>,
)
    requires
        map.contains_key("choices"@),
        map["choices"@] == Json::Array(choices),
        0 <= c < choices.len(),
    ensures
        canonical_response(Json::Object(map))->Object_0["choices"@] is Array,
        canonical_response(Json::Object(map))->Object_0["choices"@]->Array_0.len()
            == choices.len(),
        !(choices[c] is Object) ==> canonical_choice_at(map, c) == choices[c],
        choices[c] is Object ==> {
            let before = choices[c]->Object_0;
            let after = canonical_choice_at(map, c)->Object_0;
            &&& canonical_choice_at(map, c) is Object
            &&& name == "id"@ ==> !after.contains_key(name)
            &&& name != "id"@ ==> after.contains_key(name) == before.contains_key(name)
            &&& name != "id"@ && before.contains_key(name) && !((name == "message"@ || name
                == "delta"@) && before[name] is Object) ==> after[name] == before[name]
        },
{
    law_top_of_canonical_response(map, "choices"@, Json::Null);
    lemma_choices_stay(map);
    reveal_strlit("id");
    reveal_strlit("message");
    reveal_strlit("delta");
    assert("id"@.len() == 2 && "message"@.len() == 7 && "delta"@.len() == 5);
}

proof fn lemma_choices_stay(map: Map<Seq<char>, Json>)
    requires
        map.contains_key("choices"@),
    ensures
        canonical_response(Json::Object(map))->Object_0.contains_key("choices"@),
        !changes_with_every_call("choices"@),
{
    reveal_strlit("choices");
    reveal_strlit("id");
    reveal_strlit("object");
    reveal_strlit("created");
    reveal_strlit("usage");
    reveal_strlit("system_fingerprint");
    reveal_strlit("service_tier");
    reveal_strlit("request_id");
    assert("choices"@[0] == 'c');
    assert("created"@[1] == 'r' && "choices"@[1] == 'h');
}

/// Of a message, or a delta, only the `id` is left out; every other field stays, as it is, but for
/// tool calls that are an array.
pub proof fn law_messages_of_canonical_response(
    map: Map<Seq<char>, Json>,
    choices: Seq<Json>,
    c: int,
    slot: Seq<char>,
    name: Seq<char>,
)
    requires
        map.contains_key("choices"@),
        map["choices"@] == Json::Array(choices),
        0 <= c < choices.len(),
        choices[c] is Object,
        slot == "message"@ || slot == "delta"@,
        choices[c]->Object_0.contains_key(slot),
        choices[c]->Object_0[slot] is Object,
    ensures
        ({
            let before = choices[c]->Object_0[slot]->Object_0;
            let message = canonical_choice_at(map, c)->Object_0[slot];
            let after = message->Object_0;
            &&& message is Object
            &&& name == "id"@ ==> !after.contains_key(name)
            &&& name != "id"@ ==> after.contains_key(name) == before.contains_key(name)
            &&& name != "id"@ && before.contains_key(name) && !(name == "tool_calls"@
                && before[name] is Array) ==> after[name] == before[name]
        }),
{
    lemma_choices_stay(map);
    reveal_strlit("id");
    reveal_strlit("message");
    reveal_strlit("delta");
    reveal_strlit("tool_calls");
    assert("id"@.len() == 2 && "message"@.len() == 7 && "delta"@.len() == 5 && "tool_calls"@.len()
        == 10);
}

/// There are as many tool calls as before. Of each only the `id` is left out; every other field
/// stays as it is, and so does a tool call that is no object.
pub proof fn law_tool_calls_of_canonical_response(
    map: Map<Seq<char>, Json>,
    choices: Seq<Json>,
    c: int,
    slot: Seq<char>,
    calls: Seq<Json>,
    k: int,
)
    requires
        map.contains_key("choices"@),
        map["choices"@] == Json::Array(choices),
        0 <= c < choices.len(),
        choices[c] is Object,
        slot == "message"@ || slot == "delta"@,
        choices[c]->Object_0.contains_key(slot),
        choices[c]->Object_0[slot] is Object,
        choices[c]->Object_0[slot]->Object_0.contains_key("tool_calls"@),
        choices[c]->Object_0[slot]->Object_0["tool_calls"@] == Json::Array(calls),
        0 <= k < calls.len(),
    ensures
        ({
            let after = canonical_choice_at(map, c)->Object_0[slot]->Object_0["tool_calls"@];
            &&& after is Array
            &&& after->Array_0.len() == calls.len()
            &&& calls[k] is Object ==> after->Array_0[k] == Json::Object(
                calls[k]->Object_0.remove("id"@),
            )
            &&& !(calls[k] is Object) ==> after->Array_0[k] == calls[k]
        }),
{
    lemma_choices_stay(map);
    reveal_strlit("id");
    reveal_strlit("message");
    reveal_strlit("delta");
    reveal_strlit("tool_calls");
    assert("id"@.len() == 2 && "message"@.len() == 7 && "delta"@.len() == 5 && "tool_calls"@.len()
        == 10);
}

/// The fingerprint of a response is the hash of the text of its canonical form.
pub proof fn law_fingerprint_is_a_hash(response: Json)
    ensures
        response_fingerprint(response) == le_number(
            blake3_of(encode_utf8(json_text(canonical_response(response)))),
        ),
{
}

/// Two responses that say something different in a message have different canonical forms.
pub proof fn law_different_content_is_hashed_differently(
    a: Map<Seq<char>, Json>,
    b: Map<Seq<char>, Json>,
    a_choices: Seq<Json>,
    b_choices: Seq<Json>,
    c: int,
    name: Seq<char>,
)
    requires
        a.contains_key("choices"@),
        a["choices"@] == Json::Array(a_choices),
        b.contains_key("choices"@),
        b["choices"@] == Json::Array(b_choices),
        0 <= c < a_choices.len(),
        c < b_choices.len(),
        a_choices[c] is Object && a_choices[c]->Object_0.contains_key("message"@),
        a_choices[c]->Object_0["message"@] is Object,
        b_choices[c] is Object && b_choices[c]->Object_0.contains_key("message"@),
        b_choices[c]->Object_0["message"@] is Object,
        name != "id"@ && name != "tool_calls"@,
        a_choices[c]->Object_0["message"@]->Object_0.contains_key(name),
        !b_choices[c]->Object_0["message"@]->Object_0.contains_key(name)
            || b_choices[c]->Object_0["message"@]->Object_0[name]
            != a_choices[c]->Object_0["message"@]->Object_0[name],
    ensures
        canonical_response(Json::Object(a)) != canonical_response(Json::Object(b)),
{
    law_messages_of_canonical_response(a, a_choices, c, "message"@, name);
    law_messages_of_canonical_response(b, b_choices, c, "message"@, name);
}

/// The number that the bytes from `i` to the eighth spell.
spec fn horner(bytes: Seq<u8>, i: int) -> int
    decreases 8 - i,
{
    if i >= 8 {
        0
    } else {
        bytes[i] + 256 * horner(bytes, i + 1)
    }
}

proof fn lemma_digit(x: int, y: int, p: int, q: int)
    requires
        0 <= x < 256,
        0 <= y < 256,
        x + 256 * p == y + 256 * q,
    ensures
        x == y,
        p == q,
{
}

proof fn lemma_horner(bytes: Seq<u8>)
    requires
        bytes.len() >= 8,
    ensures
        le_number(bytes) == horner(bytes, 0),
        forall|i: int| 0 <= i < 8 ==> #[trigger] horner(bytes, i) == bytes[i] + 256 * horner(
            bytes,
            i + 1,
        ),
{
    reveal_with_fuel(horner, 9);
    let h7 = bytes[7] as int;
    let h6 = bytes[6] + 256 * h7;
    let h5 = bytes[5] + 256 * h6;
    let h4 = bytes[4] + 256 * h5;
    let h3 = bytes[3] + 256 * h4;
    let h2 = bytes[2] + 256 * h3;
    let h1 = bytes[1] + 256 * h2;
    let h0 = bytes[0] + 256 * h1;
    assert(horner(bytes, 0) == h0);
    assert(0 <= h0 < 0x1_0000_0000_0000_0000);
}

/// The number that is taken of a hash has the first eight bytes of the hash as its digits to the
/// base 256, the least significant first: hashes that differ in these give different numbers.
pub proof fn law_number_of_a_hash(a: Seq<u8>, b: Seq<u8>)
    requires
        a.len() >= 8,
        b.len() >= 8,
    ensures
        le_number(a) == le_number(b) <==> a.take(8) == b.take(8),
        le_number(a) % 256 == a[0],
{
    lemma_horner(a);
    lemma_horner(b);
    if le_number(a) == le_number(b) {
        lemma_digit(a[0] as int, b[0] as int, horner(a, 1), horner(b, 1));
        lemma_digit(a[1] as int, b[1] as int, horner(a, 2), horner(b, 2));
        lemma_digit(a[2] as int, b[2] as int, horner(a, 3), horner(b, 3));
        lemma_digit(a[3] as int, b[3] as int, horner(a, 4), horner(b, 4));
        lemma_digit(a[4] as int, b[4] as int, horner(a, 5), horner(b, 5));
        lemma_digit(a[5] as int, b[5] as int, horner(a, 6), horner(b, 6));
        lemma_digit(a[6] as int, b[6] as int, horner(a, 7), horner(b, 7));
        lemma_digit(a[7] as int, b[7] as int, horner(a, 8), horner(b, 8));
        assert forall|i: int| 0 <= i < 8 implies a.take(8)[i] == b.take(8)[i] by {
            assert(i == 0 || i == 1 || i == 2 || i == 3 || i == 4 || i == 5 || i == 6 || i == 7);
        }
        assert(a.take(8) =~= b.take(8));
    }
    if a.take(8) == b.take(8) {
        assert forall|i: int| 0 <= i < 8 implies #[trigger] a[i] == b[i] by {
            assert(a.take(8)[i] == b.take(8)[i]);
        }
    }
}

} // verus!

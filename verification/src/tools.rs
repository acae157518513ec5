//! Names of tool calls in a stream.

use std::collections::HashMap;

use vstd::prelude::*;
use vstd::string::*;

use crate::json::{jsons, lemma_array_view, Json, JsonValue};
use crate::number::number_u64;

verus! {

broadcast use vstd::std_specs::hash::group_hash_axioms;

/// The names of the tool calls seen so far, by the position of the call.
pub type ToolNames = HashMap<u32, String>;

/// The names that are on record.
pub open spec fn recorded(names: ToolNames) -> Map<u32, Seq<char>> {
    names@.map_values(|name: String| name@)
}

/// The position that a tool call gives as its own, cut to 32 bits; 0 where it gives none.
pub open spec fn call_index(call: Json) -> u32 {
    match call.field("index"@) {
        Some(Json::Number(n)) => match number_u64(n) {
            Some(i) => i as u32,
            None => 0,
        },
        _ => 0,
    }
}

/// The name of the function that a tool call calls, where it has one.
pub open spec fn call_name(call: Json) -> Option<Seq<char>> {
    match call.field("function"@) {
        Some(function) => match function.field("name"@) {
            Some(name) => name.text(),
            None => None,
        },
        None => None,
    }
}

/// A tool call without the name of its function.
pub open spec fn nameless(call: Json) -> Json {
    match call {
        Json::Object(map) => match map["function"@] {
            Json::Object(function) => Json::Object(
                map.insert("function"@, Json::Object(function.remove("name"@))),
            ),
            _ => call,
        },
        _ => call,
    }
}

/// What has been mended so far: the values, the names on record, and whether anything changed.
pub ghost struct Mended<T> {
    pub value: T,
    pub names: Map<u32, Seq<char>>,
    pub changed: bool,
}

/// A tool call, mended. The first name that is given for a position goes on record; an empty name
/// for a position that has one on record is taken out.
pub open spec fn mended_call(call: Json, names: Map<u32, Seq<char>>) -> Mended<Json> {
    let index = call_index(call);
    match call_name(call) {
        Some(name) => if name.len() > 0 {
            Mended {
                value: call,
                names: if names.contains_key(index) {
                    names
                } else {
                    names.insert(index, name)
                },
                changed: false,
            }
        } else if names.contains_key(index) {
            Mended { value: nameless(call), names, changed: true }
        } else {
            Mended { value: call, names, changed: false }
        },
        None => Mended { value: call, names, changed: false },
    }
}

/// Tool calls, mended one after the other.
pub open spec fn mended_calls(
    calls: Seq<Json>,
    names: Map<u32, Seq<char>>,
) -> Mended<Seq<Json>>
    decreases calls.len(),
{
    if calls.len() == 0 {
        Mended { value: Seq::empty(), names, changed: false }
    } else {
        let before = mended_calls(calls.drop_last(), names);
        let last = mended_call(calls.last(), before.names);
        Mended {
            value: before.value.push(last.value),
            names: last.names,
            changed: before.changed || last.changed,
        }
    }
}

/// The tool calls in the delta of a choice.
pub open spec fn delta_calls(choice: Json) -> Option<Seq<Json>> {
    match choice.field("delta"@) {
        Some(delta) => match delta.field("tool_calls"@) {
            Some(Json::Array(calls)) => Some(calls),
            _ => None,
        },
        None => None,
    }
}

/// A choice with other tool calls in its delta.
pub open spec fn with_delta_calls(choice: Json, calls: Seq<Json>) -> Json {
    match choice {
        Json::Object(map) => match map["delta"@] {
            Json::Object(delta) => Json::Object(
                map.insert(
                    "delta"@,
                    Json::Object(delta.insert("tool_calls"@, Json::Array(calls))),
                ),
            ),
            _ => choice,
        },
        _ => choice,
    }
}

/// A choice, the tool calls in its delta mended.
pub open spec fn mended_choice(choice: Json, names: Map<u32, Seq<char>>) -> Mended<Json> {
    match delta_calls(choice) {
        Some(calls) => {
            let mended = mended_calls(calls, names);
            Mended {
                value: with_delta_calls(choice, mended.value),
                names: mended.names,
                changed: mended.changed,
            }
        },
        None => Mended { value: choice, names, changed: false },
    }
}

/// Choices, mended one after the other.
pub open spec fn mended_choices(
    choices: Seq<Json>,
    names: Map<u32, Seq<char>>,
) -> Mended<Seq<Json>>
    decreases choices.len(),
{
    if choices.len() == 0 {
        Mended { value: Seq::empty(), names, changed: false }
    } else {
        let before = mended_choices(choices.drop_last(), names);
        let last = mended_choice(choices.last(), before.names);
        Mended {
            value: before.value.push(last.value),
            names: last.names,
            changed: before.changed || last.changed,
        }
    }
}

/// A chunk of a stream, the tool calls in its choices mended.
pub open spec fn mended_chunk(chunk: Json, names: Map<u32, Seq<char>>) -> Mended<Json> {
    match chunk {
        Json::Object(map) => match chunk.field("choices"@) {
            Some(Json::Array(choices)) => {
                let mended = mended_choices(choices, names);
                Mended {
                    value: Json::Object(map.insert("choices"@, Json::Array(mended.value))),
                    names: mended.names,
                    changed: mended.changed,
                }
            },
            _ => Mended { value: chunk, names, changed: false },
        },
        _ => Mended { value: chunk, names, changed: false },
    }
}

/// The position that a tool call gives as its own.
fn index_of_call(call: &JsonValue) -> (r: u32)
    ensures
        r == call_index(call@),
{
    match call.get("index") {
        Some(JsonValue::Number(n)) => match n.as_u64() {
            Some(i) => i as u32,
            None => 0,
        },
        _ => 0,
    }
}

/// Mends a tool call. Whether it changed.
fn mend_call(call: &mut JsonValue, names: &mut ToolNames) -> (r: bool)
    ensures
        ({
            let mended = mended_call(old(call)@, recorded(*old(names)));
            &&& final(call)@ == mended.value
            &&& recorded(*final(names)) == mended.names
            &&& r == mended.changed
        }),
{
    let ghost before = call@;
    let index = index_of_call(call);
    match call {
        JsonValue::Object(object) => {
            let ghost map = object@;
            let named: Option<bool> = match object.get("function") {
                Some(function) => match function.get("name") {
                    Some(name) => match name.as_str() {
                        Some(text) => {
                            if !text.is_empty() {
                                if !names.contains_key(&index) {
                                    let ghost known = recorded(*names);
                                    names.insert(index, text.to_owned());
                                    assert(recorded(*names) =~= known.insert(index, text@));
                                }
                                Some(true)
                            } else {
                                Some(false)
                            }
                        },
                        None => None,
                    },
                    None => None,
                },
                None => None,
            };
            if let Some(false) = named {
                if names.contains_key(&index) {
                    if let Some(JsonValue::Object(taken)) = object.remove("function") {
                        let mut function = taken;
                        function.remove("name");
                        let ghost left = function@;
                        object.insert("function", JsonValue::Object(function));
                        assert(object@ =~= map.insert("function"@, Json::Object(left)));
                        return true;
                    }
                }
            }
            false
        },
        _ => false,
    }
}

/// Mends tool calls one after the other. Whether anything changed.
fn mend_calls(calls: &mut Vec<JsonValue>, names: &mut ToolNames) -> (r: bool)
    ensures
        ({
            let mended = mended_calls(jsons(old(calls)@), recorded(*old(names)));
            &&& jsons(final(calls)@) == mended.value
            &&& recorded(*final(names)) == mended.names
            &&& r == mended.changed
        }),
{
    let ghost all = calls@;
    let ghost known = recorded(*names);
    let mut changed: bool = false;
    let mut i: usize = 0;
    assert(jsons(calls@.take(0)) =~= Seq::empty());
    while i < calls.len()
        invariant
            i <= calls.len(),
            calls.len() == all.len(),
            forall|j: int| i <= j < all.len() ==> calls@[j] == all[j],
            jsons(calls@.take(i as int)) == mended_calls(jsons(all).take(i as int), known).value,
            recorded(*names) == mended_calls(jsons(all).take(i as int), known).names,
            changed == mended_calls(jsons(all).take(i as int), known).changed,
        decreases calls.len() - i,
    {
        let ghost before = calls@;
        let this = mend_call(&mut calls[i], names);
        changed = changed || this;
        proof {
            assert(jsons(all).take(i + 1).drop_last() =~= jsons(all).take(i as int));
            assert(jsons(calls@.take(i + 1)) =~= jsons(before.take(i as int)).push(
                calls@[i as int].json(),
            ));
        }
        i = i + 1;
    }
    assert(jsons(all).take(i as int) =~= jsons(all));
    assert(calls@.take(i as int) =~= calls@);
    changed
}

/// Mends the tool calls in the delta of a choice. Whether anything changed.
fn mend_choice(choice: &mut JsonValue, names: &mut ToolNames) -> (r: bool)
    ensures
        ({
            let mended = mended_choice(old(choice)@, recorded(*old(names)));
            &&& final(choice)@ == mended.value
            &&& recorded(*final(names)) == mended.names
            &&& r == mended.changed
        }),
{
    match choice {
        JsonValue::Object(object) => {
            let ghost map = object@;
            match object.remove("delta") {
                Some(JsonValue::Object(taken)) => {
                    let mut delta = taken;
                    let ghost delta_map = delta@;
                    match delta.remove("tool_calls") {
                        Some(JsonValue::Array(items)) => {
                            proof {
                                lemma_array_view(JsonValue::Array(items));
                            }
                            let mut calls = items;
                            let changed = mend_calls(&mut calls, names);
                            let ghost mended = jsons(calls@);
                            let calls = JsonValue::Array(calls);
                            proof {
                                lemma_array_view(calls);
                            }
                            delta.insert("tool_calls", calls);
                            assert(delta@ =~= delta_map.insert("tool_calls"@, Json::Array(mended)));
                            object.insert("delta", JsonValue::Object(delta));
                            assert(object@ =~= map.insert("delta"@, Json::Object(delta@)));
                            changed
                        },
                        Some(other) => {
                            delta.insert("tool_calls", other);
                            assert(delta@ =~= delta_map);
                            object.insert("delta", JsonValue::Object(delta));
                            assert(object@ =~= map);
                            false
                        },
                        None => {
                            assert(delta@ =~= delta_map);
                            object.insert("delta", JsonValue::Object(delta));
                            assert(object@ =~= map);
                            false
                        },
                    }
                },
                Some(other) => {
                    object.insert("delta", other);
                    assert(object@ =~= map);
                    false
                },
                None => {
                    assert(object@ =~= map);
                    false
                },
            }
        },
        _ => false,
    }
}

/// Mends choices one after the other. Whether anything changed.
fn mend_choices(choices: &mut Vec<JsonValue>, names: &mut ToolNames) -> (r: bool)
    ensures
        ({
            let mended = mended_choices(jsons(old(choices)@), recorded(*old(names)));
            &&& jsons(final(choices)@) == mended.value
            &&& recorded(*final(names)) == mended.names
            &&& r == mended.changed
        }),
{
    let ghost all = choices@;
    let ghost known = recorded(*names);
    let mut changed: bool = false;
    let mut i: usize = 0;
    assert(jsons(choices@.take(0)) =~= Seq::empty());
    while i < choices.len()
        invariant
            i <= choices.len(),
            choices.len() == all.len(),
            forall|j: int| i <= j < all.len() ==> choices@[j] == all[j],
            jsons(choices@.take(i as int)) == mended_choices(
                jsons(all).take(i as int),
                known,
            ).value,
            recorded(*names) == mended_choices(jsons(all).take(i as int), known).names,
            changed == mended_choices(jsons(all).take(i as int), known).changed,
        decreases choices.len() - i,
    {
        let ghost before = choices@;
        let this = mend_choice(&mut choices[i], names);
        changed = changed || this;
        proof {
            assert(jsons(all).take(i + 1).drop_last() =~= jsons(all).take(i as int));
            assert(jsons(choices@.take(i + 1)) =~= jsons(before.take(i as int)).push(
                choices@[i as int].json(),
            ));
        }
        i = i + 1;
    }
    assert(jsons(all).take(i as int) =~= jsons(all));
    assert(choices@.take(i as int) =~= choices@);
    changed
}

/// Keeps the name of a tool call from being overwritten. Only the first chunk of a tool call
/// bears the name of its function; later ones bear an empty name, which some clients take for the
/// name. The first name that is given for a position goes on record in `seen_names`, and an empty
/// name for a position on record is taken out of `data`. Whether `data` changed.
pub fn fix_tool_call_name_overwrite(data: &mut JsonValue, seen_names: &mut ToolNames) -> (r: bool)
    ensures
        ({
            let mended = mended_chunk(old(data)@, recorded(*old(seen_names)));
            &&& final(data)@ == mended.value
            &&& recorded(*final(seen_names)) == mended.names
            &&& r == mended.changed
        }),
{
    match data {
        JsonValue::Object(object) => {
            let ghost map = object@;
            match object.remove("choices") {
                Some(JsonValue::Array(items)) => {
                    proof {
                        lemma_array_view(JsonValue::Array(items));
                    }
                    let mut choices = items;
                    let changed = mend_choices(&mut choices, seen_names);
                    let ghost mended = jsons(choices@);
                    let choices = JsonValue::Array(choices);
                    proof {
                        lemma_array_view(choices);
                    }
                    object.insert("choices", choices);
                    assert(object@ =~= map.insert("choices"@, Json::Array(mended)));
                    changed
                },
                Some(other) => {
                    object.insert("choices", other);
                    assert(object@ =~= map);
                    false
                },
                None => {
                    assert(object@ =~= map);
                    false
                },
            }
        },
        _ => false,
    }
}

/// A name on record stays on record, as it is.
pub proof fn law_name_on_record_stays(chunk: Json, names: Map<u32, Seq<char>>, index: u32)
    requires
        names.contains_key(index),
    ensures
        mended_chunk(chunk, names).names.contains_key(index),
        mended_chunk(chunk, names).names[index] == names[index],
{
    match chunk.field("choices"@) {
        Some(Json::Array(choices)) => {
            lemma_choices_keep(choices, names, index);
        },
        _ => {},
    }
}

pub proof fn lemma_calls_keep(calls: Seq<Json>, names: Map<u32, Seq<char>>, index: u32)
    requires
        names.contains_key(index),
    ensures
        mended_calls(calls, names).names.contains_key(index),
        mended_calls(calls, names).names[index] == names[index],
    decreases calls.len(),
{
    if calls.len() > 0 {
        lemma_calls_keep(calls.drop_last(), names, index);
    }
}

pub proof fn lemma_choices_keep(choices: Seq<Json>, names: Map<u32, Seq<char>>, index: u32)
    requires
        names.contains_key(index),
    ensures
        mended_choices(choices, names).names.contains_key(index),
        mended_choices(choices, names).names[index] == names[index],
    decreases choices.len(),
{
    if choices.len() > 0 {
        lemma_choices_keep(choices.drop_last(), names, index);
        let known = mended_choices(choices.drop_last(), names).names;
        match delta_calls(choices.last()) {
            Some(calls) => {
                lemma_calls_keep(calls, known, index);
            },
            None => {},
        }
    }
}

proof fn lemma_named_call_recorded(calls: Seq<Json>, names: Map<u32, Seq<char>>, k: int)
    requires
        0 <= k < calls.len(),
        call_name(calls[k]) is Some,
        call_name(calls[k])->0.len() > 0,
    ensures
        mended_calls(calls, names).names.contains_key(call_index(calls[k])),
    decreases calls.len(),
{
    if k < calls.len() - 1 {
        assert(calls.drop_last()[k] == calls[k]);
        lemma_named_call_recorded(calls.drop_last(), names, k);
    }
}

proof fn lemma_named_choice_recorded(
    choices: Seq<Json>,
    names: Map<u32, Seq<char>>,
    calls: Seq<Json>,
    c: int,
    k: int,
)
    requires
        0 <= c < choices.len(),
        delta_calls(choices[c]) == Some(calls),
        0 <= k < calls.len(),
        call_name(calls[k]) is Some,
        call_name(calls[k])->0.len() > 0,
    ensures
        mended_choices(choices, names).names.contains_key(call_index(calls[k])),
    decreases choices.len(),
{
    let before = mended_choices(choices.drop_last(), names);
    if c < choices.len() - 1 {
        assert(choices.drop_last()[c] == choices[c]);
        lemma_named_choice_recorded(choices.drop_last(), names, calls, c, k);
        if let Some(last) = delta_calls(choices.last()) {
            lemma_calls_keep(last, before.names, call_index(calls[k]));
        }
    } else {
        lemma_named_call_recorded(calls, before.names, k);
    }
}

/// Wherever in a chunk a tool call stands: if it bears a name, its position has a name on record
/// from then on.
pub proof fn law_named_call_goes_on_record(
    chunk: Json,
    names: Map<u32, Seq<char>>,
    choices: Seq<Json>,
    calls: Seq<Json>,
    c: int,
    k: int,
)
    requires
        chunk.field("choices"@) == Some(Json::Array(choices)),
        0 <= c < choices.len(),
        delta_calls(choices[c]) == Some(calls),
        0 <= k < calls.len(),
        call_name(calls[k]) is Some,
        call_name(calls[k])->0.len() > 0,
    ensures
        mended_chunk(chunk, names).names.contains_key(call_index(calls[k])),
{
    lemma_named_choice_recorded(choices, names, calls, c, k);
}

/// For a position with a name on record, no mended tool call bears an empty name: a client that
/// takes the latest name for the name keeps the one on record.
pub proof fn law_no_empty_name_on_record(call: Json, names: Map<u32, Seq<char>>)
    requires
        names.contains_key(call_index(call)),
    ensures
        call_name(mended_call(call, names).value) != Some(Seq::<char>::empty()),
{
    match call_name(call) {
        Some(name) => {
            if name.len() == 0 {
                assert(name =~= Seq::<char>::empty());
                assert(call is Object);
            } else {
                assert(name != Seq::<char>::empty());
            }
        },
        None => {},
    }
}

/// A tool call that bears a name, or whose position has no name on record, is left as it is.
pub proof fn law_named_call_is_untouched(call: Json, names: Map<u32, Seq<char>>)
    requires
        call_name(call) != Some(Seq::<char>::empty()) || !names.contains_key(call_index(call)),
    ensures
        mended_call(call, names).value == call,
        !mended_call(call, names).changed,
{
    match call_name(call) {
        Some(name) => {
            if name.len() == 0 {
                assert(name =~= Seq::<char>::empty());
            }
        },
        None => {},
    }
}

/// Of a tool call nothing but the name of its function is ever taken out.
pub proof fn law_only_the_name_is_taken_out(
    call: Json,
    names: Map<u32, Seq<char>>,
    name: Seq<char>,
)
    ensures
        name != "function"@ ==> mended_call(call, names).value.field(name) == call.field(name),
        name != "name"@ && call.field("function"@) is Some ==> mended_call(
            call,
            names,
        ).value.field("function"@)->0.field(name) == call.field("function"@)->0.field(name),
{
}

pub proof fn lemma_each_call(calls: Seq<Json>, names: Map<u32, Seq<char>>, k: int)
    requires
        0 <= k < calls.len(),
    ensures
        mended_calls(calls, names).value.len() == calls.len(),
        mended_calls(calls, names).value[k] == mended_call(
            calls[k],
            mended_calls(calls.take(k), names).names,
        ).value,
    decreases calls.len(),
{
    let rest = calls.drop_last();
    lemma_unchanged_calls(calls, names);
    lemma_unchanged_calls(rest, names);
    if k < rest.len() {
        lemma_each_call(rest, names, k);
        assert(rest.take(k) =~= calls.take(k));
    } else {
        assert(calls.take(k) =~= rest);
    }
}

pub proof fn lemma_each_choice(choices: Seq<Json>, names: Map<u32, Seq<char>>, c: int)
    requires
        0 <= c < choices.len(),
    ensures
        mended_choices(choices, names).value.len() == choices.len(),
        mended_choices(choices, names).value[c] == mended_choice(
            choices[c],
            mended_choices(choices.take(c), names).names,
        ).value,
    decreases choices.len(),
{
    let rest = choices.drop_last();
    lemma_unchanged_choices(choices, names);
    lemma_unchanged_choices(rest, names);
    if c < rest.len() {
        lemma_each_choice(rest, names, c);
        assert(rest.take(c) =~= choices.take(c));
    } else {
        assert(choices.take(c) =~= rest);
    }
}

/// Wherever in a chunk a tool call stands: if its position has a name on record, the call that is
/// passed on does not bear an empty name.
pub proof fn law_no_empty_name_in_chunk(
    chunk: Json,
    names: Map<u32, Seq<char>>,
    choices: Seq<Json>,
    calls: Seq<Json>,
    c: int,
    k: int,
)
    requires
        chunk.field("choices"@) == Some(Json::Array(choices)),
        0 <= c < choices.len(),
        delta_calls(choices[c]) == Some(calls),
        0 <= k < calls.len(),
        names.contains_key(call_index(calls[k])),
    ensures
        ({
            let mended = mended_chunk(chunk, names).value;
            let choice = mended.field("choices"@)->0->Array_0[c];
            let call = delta_calls(choice)->0[k];
            &&& mended.field("choices"@) is Some
            &&& delta_calls(choice) is Some
            &&& call_name(call) != Some(Seq::<char>::empty())
        }),
{
    let index = call_index(calls[k]);
    let known = mended_choices(choices.take(c), names).names;
    lemma_choices_keep(choices.take(c), names, index);
    lemma_each_choice(choices, names, c);
    lemma_each_call(calls, known, k);
    lemma_calls_keep(calls.take(k), known, index);
    law_no_empty_name_on_record(calls[k], mended_calls(calls.take(k), known).names);
    let mended = mended_chunk(chunk, names).value;
    assert(mended.field("choices"@)->0->Array_0 == mended_choices(choices, names).value);
    assert(delta_calls(mended_choice(choices[c], known).value) == Some(
        mended_calls(calls, known).value,
    ));
}

proof fn lemma_unchanged_calls(calls: Seq<Json>, names: Map<u32, Seq<char>>)
    ensures
        mended_calls(calls, names).value.len() == calls.len(),
        !mended_calls(calls, names).changed ==> mended_calls(calls, names).value == calls,
    decreases calls.len(),
{
    if calls.len() > 0 {
        lemma_unchanged_calls(calls.drop_last(), names);
        if !mended_calls(calls, names).changed {
            assert(mended_calls(calls, names).value =~= calls);
        }
    } else {
        assert(calls =~= Seq::empty());
    }
}

proof fn lemma_unchanged_choices(choices: Seq<Json>, names: Map<u32, Seq<char>>)
    ensures
        mended_choices(choices, names).value.len() == choices.len(),
        !mended_choices(choices, names).changed ==> mended_choices(choices, names).value == choices,
    decreases choices.len(),
{
    if choices.len() > 0 {
        lemma_unchanged_choices(choices.drop_last(), names);
        let known = mended_choices(choices.drop_last(), names).names;
        let choice = choices.last();
        match delta_calls(choice) {
            Some(calls) => {
                lemma_unchanged_calls(calls, known);
                if !mended_calls(calls, known).changed {
                    let map = choice->Object_0;
                    let delta = map["delta"@]->Object_0;
                    assert(delta.insert("tool_calls"@, Json::Array(calls)) =~= delta);
                    assert(map.insert("delta"@, Json::Object(delta)) =~= map);
                }
            },
            None => {},
        }
        if !mended_choices(choices, names).changed {
            assert(mended_choices(choices, names).value =~= choices);
        }
    } else {
        assert(choices =~= Seq::empty());
    }
}

/// A chunk that is reported as unchanged is the chunk that came in.
pub proof fn law_unchanged_means_unchanged(chunk: Json, names: Map<u32, Seq<char>>)
    requires
        !mended_chunk(chunk, names).changed,
    ensures
        mended_chunk(chunk, names).value == chunk,
{
    match chunk.field("choices"@) {
        Some(Json::Array(choices)) => {
            lemma_unchanged_choices(choices, names);
            let map = chunk->Object_0;
            assert(map.insert("choices"@, Json::Array(choices)) =~= map);
        },
        _ => {},
    }
}

} // verus!

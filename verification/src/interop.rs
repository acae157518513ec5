//! The boundary to `serde_json`: reading and writing JSON text.

use vstd::prelude::*;
use vstd::string::*;

use crate::json::{
    fields, jsons, lemma_array_view, lemma_element_smaller, lemma_field_smaller, Json, JsonValue,
    Object,
};
use crate::number::{number_of_signed, number_u64};

verus! {

/// A JSON value as `serde_json` holds it.
#[verifier::external_type_specification]
#[verifier::external_body]
pub struct ExSerdeValue(serde_json::Value);

/// The fields of a JSON object as `serde_json` holds them.
#[verifier::external_type_specification]
#[verifier::external_body]
#[verifier::reject_recursive_types(K)]
#[verifier::reject_recursive_types(V)]
pub struct ExSerdeMap<K, V>(serde_json::Map<K, V>);

/// The JSON value that a `serde_json::Value` holds.
pub uninterp spec fn json_of(value: serde_json::Value) -> Json;

/// The fields that a `serde_json::Map` holds.
pub uninterp spec fn map_of(
    map: serde_json::Map<String, serde_json::Value>,
) -> Map<Seq<char>, Json>;

/// The text that `serde_json::to_string` writes for a JSON value. An object is written from a
/// map that is sorted by name, so the text depends on nothing but the value.
pub uninterp spec fn json_text(json: Json) -> Seq<char>;

/// The JSON value that `serde_json::from_str` reads out of a text, if it accepts the text.
pub uninterp spec fn json_parse(text: Seq<char>) -> Option<Json>;

/// The JSON value that `serde_json::from_slice` reads out of a byte string, or the message of
/// its error.
pub uninterp spec fn json_parse_bytes(bytes: Seq<u8>) -> Result<Json, Seq<char>>;

/// The outermost layer of a `serde_json::Value`.
pub enum Parts {
    Null,
    Bool(bool),
    Number(serde_json::Number),
    Str(String),
    Array(Vec<serde_json::Value>),
    Object(serde_json::Map<String, serde_json::Value>),
}

/// The map that a list of fields stands for: each field overrides those before it.
pub open spec fn part_fields(entries: Seq<(String, serde_json::Value)>) -> Map<Seq<char>, Json>
    decreases entries.len(),
{
    if entries.len() == 0 {
        Map::empty()
    } else {
        part_fields(entries.drop_last()).insert(entries.last().0@, json_of(entries.last().1))
    }
}

impl Parts {
    /// The JSON value that the layer stands for.
    pub open spec fn json(self) -> Json {
        match self {
            Parts::Null => Json::Null,
            Parts::Bool(b) => Json::Bool(b),
            Parts::Number(n) => Json::Number(n),
            Parts::Str(s) => Json::Str(s@),
            Parts::Array(items) => Json::Array(
                items@.map_values(|v: serde_json::Value| json_of(v)),
            ),
            Parts::Object(map) => Json::Object(map_of(map)),
        }
    }
}

/// Builds the variant of `serde_json::Value` that the layer names.
#[verifier::external_body]
fn assemble(parts: Parts) -> (r: serde_json::Value)
    ensures
        json_of(r) == parts.json(),
{
    match parts {
        Parts::Null => serde_json::Value::Null,
        Parts::Bool(b) => serde_json::Value::Bool(b),
        Parts::Number(n) => serde_json::Value::Number(n),
        Parts::Str(s) => serde_json::Value::String(s),
        Parts::Array(items) => serde_json::Value::Array(items),
        Parts::Object(map) => serde_json::Value::Object(map),
    }
}

/// Takes the outermost variant of a `serde_json::Value` apart.
#[verifier::external_body]
fn dissect(value: serde_json::Value) -> (r: Parts)
    ensures
        r.json() == json_of(value),
{
    match value {
        serde_json::Value::Null => Parts::Null,
        serde_json::Value::Bool(b) => Parts::Bool(b),
        serde_json::Value::Number(n) => Parts::Number(n),
        serde_json::Value::String(s) => Parts::Str(s),
        serde_json::Value::Array(items) => Parts::Array(items),
        serde_json::Value::Object(map) => Parts::Object(map),
    }
}

/// Calls `serde_json::Map::new`, which makes a map without fields.
#[verifier::external_body]
fn new_map() -> (r: serde_json::Map<String, serde_json::Value>)
    ensures
        map_of(r).is_empty(),
{
    serde_json::Map::new()
}

/// Calls `serde_json::Map::insert`, which replaces the field of that name where there is one.
#[verifier::external_body]
fn put_field(
    map: &mut serde_json::Map<String, serde_json::Value>,
    name: String,
    value: serde_json::Value,
)
    ensures
        map_of(*final(map)) == map_of(*old(map)).insert(name@, json_of(value)),
{
    map.insert(name, value);
}

/// Calls `serde_json::Map::into_iter`, which hands out every field, each name once.
#[verifier::external_body]
fn map_entries(map: serde_json::Map<String, serde_json::Value>) -> (r: Vec<
    (String, serde_json::Value),
>)
    ensures
        part_fields(r@) == map_of(map),
        forall|i: int, j: int| 0 <= i < j < r@.len() ==> r@[i].0@ != r@[j].0@,
{
    map.into_iter().collect()
}

/// Whether a number is an integer of 64 bits, unsigned or signed.
pub open spec fn is_integer(number: serde_json::Number) -> bool {
    number_u64(number) is Some || exists|n: i64| number == number_of_signed(n)
}

/// Whether a JSON value is finite, and every number in it is an integer.
pub open spec fn whole(json: Json) -> bool
    decreases json,
{
    match json {
        Json::Number(n) => is_integer(n),
        Json::Array(items) => forall|i: int| 0 <= i < items.len() ==> whole(#[trigger] items[i]),
        Json::Object(map) => map.dom().finite() && forall|name: Seq<char>|
            map.contains_key(name) ==> whole(#[trigger] map[name]),
        _ => true,
    }
}

/// Whether a text is the text of one JSON value only, as far as values without fractions go.
pub open spec fn tells_apart(text: Seq<char>, json: Json) -> bool {
    whole(json) ==> forall|other: Json| whole(other) && #[trigger] json_text(other) == text
        ==> other == json
}

/// Calls `serde_json::to_string`. On a `serde_json::Value` it cannot fail: the names of an object
/// are strings, and the text is written to memory. Different values have different texts: strings
/// are quoted and escaped, integers are written out in decimal with their sign, and the fields of
/// an object are written in the order of their names. That is left unsaid of fractions.
#[verifier::external_body]
fn write_text(value: &serde_json::Value) -> (r: Option<String>)
    ensures
        r is Some,
        r->0@ == json_text(json_of(*value)),
        tells_apart(r->0@, json_of(*value)),
{
    serde_json::to_string(value).ok()
}

/// Calls `serde_json::from_str`.
#[verifier::external_body]
fn read_text(text: &str) -> (r: Option<serde_json::Value>)
    ensures
        match r {
            Some(value) => json_parse(text@) == Some(json_of(value)),
            None => json_parse(text@) is None,
        },
{
    serde_json::from_str(text).ok()
}

/// Calls `serde_json::from_slice`, and writes its error out as a message.
#[verifier::external_body]
fn read_bytes(bytes: &[u8]) -> (r: Result<serde_json::Value, String>)
    ensures
        match r {
            Ok(value) => json_parse_bytes(bytes@) == Ok::<Json, Seq<char>>(json_of(value)),
            Err(message) => json_parse_bytes(bytes@) == Err::<Json, Seq<char>>(message@),
        },
{
    serde_json::from_slice(bytes).map_err(|e: serde_json::Error| e.to_string())
}

/// The `serde_json::Value` that stands for `v`.
fn export(v: &JsonValue) -> (r: serde_json::Value)
    ensures
        json_of(r) == v@,
    decreases v,
{
    match v {
        JsonValue::Null => assemble(Parts::Null),
        JsonValue::Bool(b) => assemble(Parts::Bool(*b)),
        JsonValue::Number(n) => assemble(Parts::Number(n.clone())),
        JsonValue::Str(s) => assemble(Parts::Str(s.clone())),
        JsonValue::Array(items) => {
            let mut copy: Vec<serde_json::Value> = Vec::new();
            let mut i: usize = 0;
            while i < items.len()
                invariant
                    *v == JsonValue::Array(*items),
                    i <= items.len(),
                    copy.len() == i,
                    forall|j: int| 0 <= j < i ==> json_of(copy@[j]) == items@[j].json(),
                decreases items.len() - i,
            {
                proof {
                    lemma_element_smaller(*v, i as int);
                }
                let item = export(&items[i]);
                copy.push(item);
                i = i + 1;
            }
            proof {
                lemma_array_view(*v);
                assert(copy@.map_values(|v: serde_json::Value| json_of(v)) =~= jsons(items@));
            }
            assemble(Parts::Array(copy))
        },
        JsonValue::Object(object) => {
            let mut copy = new_map();
            let mut i: usize = 0;
            while i < object.entries.len()
                invariant
                    *v == JsonValue::Object(*object),
                    i <= object.entries.len(),
                    map_of(copy) == fields(object.entries@.take(i as int)),
                decreases object.entries.len() - i,
            {
                proof {
                    lemma_field_smaller(*v, i as int);
                    assert(object.entries@.take(i + 1).drop_last() =~= object.entries@.take(
                        i as int,
                    ));
                }
                let value = export(&object.entries[i].1);
                put_field(&mut copy, object.entries[i].0.clone(), value);
                i = i + 1;
            }
            assert(object.entries@.take(i as int) =~= object.entries@);
            assemble(Parts::Object(copy))
        },
    }
}

/// With each name once, every field is in the map, and the map is finite.
proof fn lemma_part_fields(entries: Seq<(String, serde_json::Value)>, i: int)
    requires
        forall|a: int, b: int|
            0 <= a < b < entries.len() ==> entries[a].0@ != entries[b].0@,
    ensures
        part_fields(entries).dom().finite(),
        0 <= i < entries.len() ==> {
            &&& part_fields(entries).contains_key(entries[i].0@)
            &&& part_fields(entries)[entries[i].0@] == json_of(entries[i].1)
        },
    decreases entries.len(),
{
    if entries.len() > 0 {
        lemma_part_fields(entries.drop_last(), i);
        if 0 <= i < entries.len() - 1 {
            assert(entries.drop_last()[i] == entries[i]);
        }
    }
}

/// The library's value for what a `serde_json::Value` holds.
fn import(value: serde_json::Value) -> (r: JsonValue)
    ensures
        r@ == json_of(value),
    decreases json_of(value),
{
    let parts = dissect(value);
    match parts {
        Parts::Null => JsonValue::Null,
        Parts::Bool(b) => JsonValue::Bool(b),
        Parts::Number(n) => JsonValue::Number(n),
        Parts::Str(s) => JsonValue::Str(s),
        Parts::Array(items) => {
            let ghost all = items@;
            let mut copy: Vec<JsonValue> = Vec::new();
            for item in iter: items
                invariant
                    iter.seq() == all,
                    json_of(value) == Json::Array(
                        all.map_values(|v: serde_json::Value| json_of(v)),
                    ),
                    copy.len() == iter.index(),
                    forall|j: int| 0 <= j < iter.index() ==> copy@[j].json() == json_of(all[j]),
            {
                assert(json_of(value)->Array_0[iter.index() as int] == json_of(item));
                let read = import(item);
                copy.push(read);
            }
            let r = JsonValue::Array(copy);
            proof {
                lemma_array_view(r);
                assert(jsons(copy@) =~= all.map_values(|v: serde_json::Value| json_of(v)));
            }
            r
        },
        Parts::Object(map) => {
            let entries = map_entries(map);
            let ghost all = entries@;
            let mut copy: Vec<(String, JsonValue)> = Vec::new();
            for entry in iter: entries
                invariant
                    iter.seq() == all,
                    json_of(value) == Json::Object(part_fields(all)),
                    forall|a: int, b: int| 0 <= a < b < all.len() ==> all[a].0@ != all[b].0@,
                    fields(copy@) == part_fields(all.take(iter.index() as int)),
            {
                let ghost before = copy@;
                let ghost seen = iter.index() as int;
                proof {
                    lemma_part_fields(all, seen);
                    let map = json_of(value)->Object_0;
                    assert(decreases_to!(map => map[entry.0@]));
                }
                let read = import(entry.1);
                copy.push((entry.0, read));
                proof {
                    assert(copy@.drop_last() =~= before);
                    assert(all.take(seen + 1).drop_last() =~= all.take(seen));
                }
            }
            assert(all.take(all.len() as int) =~= all);
            JsonValue::Object(Object { entries: copy })
        },
    }
}

/// The JSON text of `v`.
pub fn to_text(v: &JsonValue) -> (r: String)
    ensures
        r@ == json_text(v@),
        tells_apart(r@, v@),
{
    let exported = export(v);
    match write_text(&exported) {
        Some(text) => text,
        None => String::new(),
    }
}

/// The JSON value that a text holds.
pub fn from_text(text: &str) -> (r: Option<JsonValue>)
    ensures
        match r {
            Some(v) => json_parse(text@) == Some(v@),
            None => json_parse(text@) is None,
        },
{
    match read_text(text) {
        Some(value) => Some(import(value)),
        None => None,
    }
}

/// The JSON value that a byte string holds, or what is wrong with the byte string.
pub fn from_bytes(bytes: &[u8]) -> (r: Result<JsonValue, String>)
    ensures
        match r {
            Ok(v) => json_parse_bytes(bytes@) == Ok::<Json, Seq<char>>(v@),
            Err(message) => json_parse_bytes(bytes@) == Err::<Json, Seq<char>>(message@),
        },
{
    match read_bytes(bytes) {
        Ok(value) => Ok(import(value)),
        Err(message) => Err(message),
    }
}

} // verus!

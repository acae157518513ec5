//! JSON values: the mathematical model [`Json`] and the executable [`JsonValue`].

use vstd::prelude::*;
use vstd::string::*;

use crate::text::str_eq;

verus! {

/// The number type of `serde_json`, carried through unread.
#[verifier::external_type_specification]
#[verifier::external_body]
pub struct ExNumber(serde_json::Number);

/// A JSON value as a mathematical object: an object is a finite map from names to values, so
/// the order in which its fields were written is no part of it.
#[verifier::ext_equal]
pub ghost enum Json {
    Null,
    Bool(bool),
    Number(serde_json::Number),
    Str(Seq<char>),
    Array(Seq<Json>),
    Object(Map<Seq<char>, Json>),
}

/// A JSON value.
#[derive(Debug, PartialEq)]
pub enum JsonValue {
    Null,
    Bool(bool),
    Number(serde_json::Number),
    Str(String),
    Array(Vec<JsonValue>),
    Object(Object),
}

/// The fields of a JSON object. Where a name occurs twice, the later field counts.
#[derive(Debug, PartialEq)]
pub struct Object {
    pub entries: Vec<(String, JsonValue)>,
}

impl JsonValue {
    /// The JSON value that `self` stands for.
    pub open spec fn json(self) -> Json
        decreases self,
    {
        match self {
            JsonValue::Null => Json::Null,
            JsonValue::Bool(b) => Json::Bool(b),
            JsonValue::Number(n) => Json::Number(n),
            JsonValue::Str(s) => Json::Str(s@),
            JsonValue::Array(items) => Json::Array(
                Seq::new(
                    items@.len(),
                    |i: int|
                        if 0 <= i < items@.len() {
                            items@[i].json()
                        } else {
                            Json::Null
                        },
                ),
            ),
            JsonValue::Object(object) => Json::Object(fields(object.entries@)),
        }
    }
}

/// The map that a list of fields stands for: each field overrides those before it.
pub open spec fn fields(entries: Seq<(String, JsonValue)>) -> Map<Seq<char>, Json>
    decreases entries,
{
    if entries.len() == 0 {
        Map::empty()
    } else {
        fields(entries.drop_last()).insert(entries.last().0@, entries.last().1.json())
    }
}

impl View for JsonValue {
    type V = Json;

    open spec fn view(&self) -> Json {
        self.json()
    }
}

impl View for Object {
    type V = Map<Seq<char>, Json>;

    open spec fn view(&self) -> Map<Seq<char>, Json> {
        fields(self.entries@)
    }
}

impl Json {
    /// The field `name` of an object; nothing for any other value.
    pub open spec fn field(self, name: Seq<char>) -> Option<Json> {
        match self {
            Json::Object(map) => if map.contains_key(name) {
                Some(map[name])
            } else {
                None
            },
            _ => None,
        }
    }

    /// The element at `index` of an array; nothing for any other value.
    pub open spec fn element(self, index: int) -> Option<Json> {
        match self {
            Json::Array(items) => if 0 <= index < items.len() {
                Some(items[index])
            } else {
                None
            },
            _ => None,
        }
    }
}

/// The values that a sequence of [`JsonValue`]s stands for.
pub open spec fn jsons(items: Seq<JsonValue>) -> Seq<Json> {
    items.map_values(|v: JsonValue| v.json())
}

/// What an optional borrowed value stands for.
pub open spec fn opt_json(v: Option<&JsonValue>) -> Option<Json> {
    match v {
        Some(v) => Some(v@),
        None => None,
    }
}

/// What an optional owned value stands for.
pub open spec fn opt_owned_json(v: Option<JsonValue>) -> Option<Json> {
    match v {
        Some(v) => Some(v@),
        None => None,
    }
}

/// An array stands for the values of its elements, in order.
pub broadcast proof fn lemma_array_view(v: JsonValue)
    requires
        v is Array,
    ensures
        #[trigger] v.json() == Json::Array(jsons(v->Array_0@)),
{
    assert(v.json()->Array_0 =~= jsons(v->Array_0@));
}

/// The elements of an array are smaller than the array.
pub proof fn lemma_element_smaller(v: JsonValue, i: int)
    requires
        v is Array,
        0 <= i < v->Array_0@.len(),
    ensures
        decreases_to!(v => v->Array_0@[i]),
{
    assert(decreases_to!(v => v->Array_0));
    assert(decreases_to!(v->Array_0 => v->Array_0@));
    assert(decreases_to!(v->Array_0@ => v->Array_0@[i]));
}

/// The values in an object are smaller than the object.
pub proof fn lemma_field_smaller(v: JsonValue, i: int)
    requires
        v is Object,
        0 <= i < v->Object_0.entries@.len(),
    ensures
        decreases_to!(v => v->Object_0.entries@[i].1),
{
    let entries = v->Object_0.entries;
    assert(decreases_to!(v => v->Object_0));
    assert(decreases_to!(v->Object_0 => v->Object_0.entries));
    assert(decreases_to!(entries => entries@));
    assert(decreases_to!(entries@ => entries@[i]));
    assert(decreases_to!(entries@[i] => entries@[i].1));
}

/// A name with no field after position `i` maps to the field at `i`.
pub proof fn lemma_fields_last(entries: Seq<(String, JsonValue)>, i: int)
    requires
        0 <= i < entries.len(),
        forall|j: int| i < j < entries.len() ==> entries[j].0@ != entries[i].0@,
    ensures
        fields(entries).contains_key(entries[i].0@),
        fields(entries)[entries[i].0@] == entries[i].1.json(),
    decreases entries.len(),
{
    if i < entries.len() - 1 {
        assert(entries.last() == entries[entries.len() - 1]);
        assert(entries.drop_last()[i] == entries[i]);
        lemma_fields_last(entries.drop_last(), i);
    }
}

/// A name that no field bears is not in the map.
pub proof fn lemma_fields_absent(entries: Seq<(String, JsonValue)>, name: Seq<char>)
    requires
        forall|j: int| 0 <= j < entries.len() ==> entries[j].0@ != name,
    ensures
        !fields(entries).contains_key(name),
    decreases entries.len(),
{
    if entries.len() > 0 {
        assert(entries.last() == entries[entries.len() - 1]);
        assert forall|j: int| 0 <= j < entries.drop_last().len() implies entries.drop_last()[j].0@
            != name by {
            assert(entries.drop_last()[j] == entries[j]);
        }
        lemma_fields_absent(entries.drop_last(), name);
    }
}

impl Object {
    /// An object without fields.
    pub fn new() -> (r: Object)
        ensures
            r@ == Map::<Seq<char>, Json>::empty(),
    {
        Object { entries: Vec::new() }
    }

    /// The value of the field `name`.
    pub fn get(&self, name: &str) -> (r: Option<&JsonValue>)
        ensures
            opt_json(r) == Json::Object(self@).field(name@),
    {
        let mut i: usize = self.entries.len();
        while i > 0
            invariant
                i <= self.entries.len(),
                forall|j: int| i <= j < self.entries.len() ==> self.entries@[j].0@ != name@,
            decreases i,
        {
            i = i - 1;
            if str_eq(self.entries[i].0.as_str(), name) {
                proof {
                    lemma_fields_last(self.entries@, i as int);
                }
                return Some(&self.entries[i].1);
            }
        }
        proof {
            lemma_fields_absent(self.entries@, name@);
        }
        None
    }

    /// Takes the field `name` out and returns its value.
    pub fn remove(&mut self, name: &str) -> (r: Option<JsonValue>)
        ensures
            final(self)@ == old(self)@.remove(name@),
            opt_owned_json(r) == Json::Object(old(self)@).field(name@),
    {
        let mut found: Option<JsonValue> = None;
        let ghost all = self.entries@;
        let ghost mut seen: int = 0;
        let mut i: usize = 0;
        while i < self.entries.len()
            invariant
                i <= self.entries.len(),
                0 <= seen <= all.len(),
                self.entries@.skip(i as int) =~= all.skip(seen),
                fields(self.entries@.take(i as int)) == fields(all.take(seen)).remove(name@),
                opt_owned_json(found) == Json::Object(fields(all.take(seen))).field(name@),
            decreases self.entries.len() - i,
        {
            let ghost before = self.entries@;
            proof {
                assert(before.skip(i as int).len() == all.skip(seen).len());
                assert(before.skip(i as int)[0] == all.skip(seen)[0]);
                assert(before[i as int] == all[seen]);
                assert(all.take(seen + 1).drop_last() =~= all.take(seen));
                assert(before.skip(i + 1) =~= before.skip(i as int).skip(1));
                assert(all.skip(seen + 1) =~= all.skip(seen).skip(1));
            }
            if str_eq(self.entries[i].0.as_str(), name) {
                let entry = self.entries.remove(i);
                found = Some(entry.1);
                proof {
                    assert(self.entries@.take(i as int) =~= before.take(i as int));
                    assert(self.entries@.skip(i as int) =~= before.skip(i + 1));
                    assert(fields(all.take(seen + 1)).remove(name@) =~= fields(
                        all.take(seen),
                    ).remove(name@));
                }
            } else {
                proof {
                    assert(before.take(i + 1).drop_last() =~= before.take(i as int));
                    assert(fields(before.take(i + 1)) =~= fields(all.take(seen + 1)).remove(name@));
                }
                i = i + 1;
            }
            proof {
                seen = seen + 1;
            }
        }
        proof {
            assert(self.entries@.take(i as int) =~= self.entries@);
            assert(all.skip(seen).len() == 0);
            assert(all.take(seen) =~= all);
        }
        found
    }

    /// Sets the field `name` to `value`, replacing any earlier value.
    pub fn insert(&mut self, name: &str, value: JsonValue)
        ensures
            final(self)@ == old(self)@.insert(name@, value@),
    {
        let ghost before = self@;
        self.remove(name);
        let ghost kept = self.entries@;
        self.entries.push((name.to_owned(), value));
        assert(self.entries@.drop_last() =~= kept);
        assert(self@ =~= before.insert(name@, value@));
    }
}

impl JsonValue {
    /// Whether this is `null`.
    pub fn is_null(&self) -> (r: bool)
        ensures
            r == (self@ is Null),
    {
        match self {
            JsonValue::Null => true,
            _ => false,
        }
    }

    /// Whether this is an array without elements.
    pub fn is_empty_array(&self) -> (r: bool)
        ensures
            r == (self@ == Json::Array(Seq::empty())),
    {
        match self {
            JsonValue::Array(items) => {
                proof {
                    lemma_array_view(*self);
                    assert(jsons(items@).len() == items@.len());
                    assert(items@.len() == 0 ==> jsons(items@) =~= Seq::empty());
                    assert(Seq::<Json>::empty().len() == 0);
                }
                items.len() == 0
            },
            _ => false,
        }
    }

    /// The string that this is.
    pub fn as_str(&self) -> (r: Option<&str>)
        ensures
            opt_chars(r) == self@.text(),
    {
        match self {
            JsonValue::Str(s) => Some(s.as_str()),
            _ => None,
        }
    }

    /// The elements, where this is an array.
    pub fn as_array(&self) -> (r: Option<&Vec<JsonValue>>)
        ensures
            match r {
                Some(items) => self@ == Json::Array(jsons(items@)),
                None => !(self@ is Array),
            },
    {
        match self {
            JsonValue::Array(items) => {
                proof {
                    lemma_array_view(*self);
                }
                Some(items)
            },
            _ => None,
        }
    }

    /// The fields, where this is an object.
    pub fn as_object(&self) -> (r: Option<&Object>)
        ensures
            match r {
                Some(object) => self@ == Json::Object(object@),
                None => !(self@ is Object),
            },
    {
        match self {
            JsonValue::Object(object) => Some(object),
            _ => None,
        }
    }

    /// The field `name`, where this is an object that has one.
    pub fn get(&self, name: &str) -> (r: Option<&JsonValue>)
        ensures
            opt_json(r) == self@.field(name@),
    {
        match self {
            JsonValue::Object(object) => object.get(name),
            _ => None,
        }
    }

    /// The element at `index`, where this is an array that has one.
    pub fn get_index(&self, index: usize) -> (r: Option<&JsonValue>)
        ensures
            opt_json(r) == self@.element(index as int),
    {
        match self {
            JsonValue::Array(items) => {
                proof {
                    lemma_array_view(*self);
                }
                if index < items.len() {
                    Some(&items[index])
                } else {
                    None
                }
            },
            _ => None,
        }
    }
}

impl Json {
    /// The characters of a string; nothing for any other value.
    pub open spec fn text(self) -> Option<Seq<char>> {
        match self {
            Json::Str(s) => Some(s),
            _ => None,
        }
    }
}

/// The characters of an optional string.
pub open spec fn opt_chars(s: Option<&str>) -> Option<Seq<char>> {
    match s {
        Some(s) => Some(s@),
        None => None,
    }
}

/// `serde_json::Number::clone`: the copy is the number that was copied.
pub assume_specification[ <serde_json::Number as Clone>::clone ](
    number: &serde_json::Number,
) -> (r: serde_json::Number)
    ensures
        r == *number,
;

/// A copy of `v`.
fn clone_value(v: &JsonValue) -> (r: JsonValue)
    ensures
        r@ == v@,
    decreases v,
{
    match v {
        JsonValue::Null => JsonValue::Null,
        JsonValue::Bool(b) => JsonValue::Bool(*b),
        JsonValue::Number(n) => JsonValue::Number(n.clone()),
        JsonValue::Str(s) => JsonValue::Str(s.clone()),
        JsonValue::Array(items) => {
            let mut copy: Vec<JsonValue> = Vec::new();
            let mut i: usize = 0;
            while i < items.len()
                invariant
                    *v == JsonValue::Array(*items),
                    i <= items.len(),
                    copy.len() == i,
                    forall|j: int| 0 <= j < i ==> copy@[j].json() == items@[j].json(),
                decreases items.len() - i,
            {
                proof {
                    lemma_element_smaller(*v, i as int);
                }
                let item = clone_value(&items[i]);
                copy.push(item);
                i = i + 1;
            }
            let r = JsonValue::Array(copy);
            proof {
                lemma_array_view(*v);
                lemma_array_view(r);
                assert(jsons(copy@) =~= jsons(items@));
            }
            r
        },
        JsonValue::Object(object) => {
            let mut copy: Vec<(String, JsonValue)> = Vec::new();
            let mut i: usize = 0;
            while i < object.entries.len()
                invariant
                    *v == JsonValue::Object(*object),
                    i <= object.entries.len(),
                    fields(copy@) == fields(object.entries@.take(i as int)),
                decreases object.entries.len() - i,
            {
                let ghost before = copy@;
                proof {
                    lemma_field_smaller(*v, i as int);
                }
                let value = clone_value(&object.entries[i].1);
                copy.push((object.entries[i].0.clone(), value));
                proof {
                    assert(copy@.drop_last() =~= before);
                    assert(object.entries@.take(i + 1).drop_last() =~= object.entries@.take(
                        i as int,
                    ));
                }
                i = i + 1;
            }
            assert(object.entries@.take(i as int) =~= object.entries@);
            JsonValue::Object(Object { entries: copy })
        },
    }
}

impl Clone for JsonValue {
    fn clone(&self) -> (r: JsonValue)
        ensures
            r@ == self@,
    {
        clone_value(self)
    }
}

} // verus!

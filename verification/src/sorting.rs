//! Sorting the fields of JSON objects by name.

use vstd::prelude::*;
use vstd::string::*;
use vstd::utf8::*;

use crate::json::{
    fields, jsons, lemma_array_view, lemma_element_smaller, lemma_field_smaller, JsonValue,
    Object,
};

verus! {

/// Whether `a` comes before `b` in the lexicographic order of byte strings.
pub open spec fn bytes_less(a: Seq<u8>, b: Seq<u8>) -> bool
    decreases a.len(),
{
    if b.len() == 0 {
        false
    } else if a.len() == 0 {
        true
    } else if a[0] != b[0] {
        a[0] < b[0]
    } else {
        bytes_less(a.drop_first(), b.drop_first())
    }
}

/// Whether the name `a` comes before the name `b`: the usual order of strings, by their bytes.
pub open spec fn name_less(a: Seq<char>, b: Seq<char>) -> bool {
    bytes_less(encode_utf8(a), encode_utf8(b))
}

/// Whether no field comes before an earlier one.
pub open spec fn sorted(entries: Seq<(String, JsonValue)>) -> bool {
    forall|i: int, j: int|
        0 <= i < j < entries.len() ==> !name_less(#[trigger] entries[j].0@, #[trigger] entries[i].0@)
}

/// Whether the fields of every object in `v` are sorted by name.
pub open spec fn names_sorted(v: JsonValue) -> bool
    decreases v,
{
    match v {
        JsonValue::Array(items) => forall|i: int|
            0 <= i < items@.len() ==> names_sorted(#[trigger] items@[i]),
        JsonValue::Object(object) => {
            &&& sorted(object.entries@)
            &&& forall|i: int|
                0 <= i < object.entries@.len() ==> names_sorted((#[trigger] object.entries@[i]).1)
        },
        _ => true,
    }
}

proof fn lemma_less_irreflexive(a: Seq<u8>)
    ensures
        !bytes_less(a, a),
    decreases a.len(),
{
    if a.len() > 0 {
        lemma_less_irreflexive(a.drop_first());
    }
}

/// What is not less is transitive.
proof fn lemma_not_less_transitive(a: Seq<u8>, b: Seq<u8>, c: Seq<u8>)
    requires
        !bytes_less(b, a),
        !bytes_less(c, b),
    ensures
        !bytes_less(c, a),
    decreases a.len(),
{
    if a.len() > 0 && b.len() > 0 && c.len() > 0 && a[0] == b[0] && b[0] == c[0] {
        lemma_not_less_transitive(a.drop_first(), b.drop_first(), c.drop_first());
    }
}

/// What is less is not greater.
proof fn lemma_less_asymmetric(a: Seq<u8>, b: Seq<u8>)
    requires
        bytes_less(a, b),
    ensures
        !bytes_less(b, a),
    decreases a.len(),
{
    if a.len() > 0 && a[0] == b[0] {
        lemma_less_asymmetric(a.drop_first(), b.drop_first());
    }
}

/// Two neighbouring fields with different names can change places.
proof fn lemma_fields_swap(
    before: Seq<(String, JsonValue)>,
    after: Seq<(String, JsonValue)>,
    k: int,
)
    requires
        0 <= k < before.len() - 1,
        before[k].0@ != before[k + 1].0@,
        after == before.update(k, before[k + 1]).update(k + 1, before[k]),
    ensures
        fields(after) == fields(before),
    decreases before.len(),
{
    if k + 1 == before.len() - 1 {
        let base = before.drop_last().drop_last();
        assert(after.drop_last().drop_last() =~= base);
        assert(after.drop_last().last() == before[k + 1]);
        assert(before.drop_last().last() == before[k]);
        reveal_with_fuel(fields, 3);
        assert(fields(after) =~= fields(before));
    } else {
        assert(after.drop_last() =~= before.drop_last().update(k, before[k + 1]).update(
            k + 1,
            before[k],
        ));
        lemma_fields_swap(before.drop_last(), after.drop_last(), k);
    }
}

/// Whether the name `a` comes before the name `b`.
fn is_less(a: &str, b: &str) -> (r: bool)
    ensures
        r == name_less(a@, b@),
{
    let x = a.as_bytes();
    let y = b.as_bytes();
    let mut i: usize = 0;
    proof {
        assert(x@.skip(0) =~= x@);
        assert(y@.skip(0) =~= y@);
    }
    while i < x.len() && i < y.len() && x[i] == y[i]
        invariant
            i <= x.len(),
            i <= y.len(),
            bytes_less(x@, y@) == bytes_less(x@.skip(i as int), y@.skip(i as int)),
        decreases x.len() - i,
    {
        proof {
            assert(x@.skip(i as int).drop_first() =~= x@.skip(i + 1));
            assert(y@.skip(i as int).drop_first() =~= y@.skip(i + 1));
        }
        i = i + 1;
    }
    if i >= y.len() {
        false
    } else if i >= x.len() {
        true
    } else {
        x[i] < y[i]
    }
}

/// Sorts fields by name. Fields of one name keep their order.
fn sort_entries(entries: &mut Vec<(String, JsonValue)>)
    requires
        forall|k: int| 0 <= k < old(entries)@.len() ==> names_sorted((#[trigger] old(entries)@[k]).1),
    ensures
        fields(final(entries)@) == fields(old(entries)@),
        sorted(final(entries)@),
        forall|k: int|
            0 <= k < final(entries)@.len() ==> names_sorted((#[trigger] final(entries)@[k]).1),
{
    let mut i: usize = 0;
    let ghost all = entries@;
    while i < entries.len()
        invariant
            i <= entries.len(),
            entries.len() == all.len(),
            fields(entries@) == fields(all),
            sorted(entries@.take(i as int)),
            forall|k: int| 0 <= k < entries@.len() ==> names_sorted((#[trigger] entries@[k]).1),
        decreases entries.len() - i,
    {
        let mut j: usize = i;
        assert forall|a: int, b: int| 0 <= a < b < i implies !name_less(
            #[trigger] entries@[b].0@,
            #[trigger] entries@[a].0@,
        ) by {
            assert(entries@.take(i as int)[a] == entries@[a]);
            assert(entries@.take(i as int)[b] == entries@[b]);
        }
        while j > 0 && is_less(entries[j].0.as_str(), entries[j - 1].0.as_str())
            invariant
                j <= i < entries.len(),
                entries.len() == all.len(),
                fields(entries@) == fields(all),
                forall|k: int| 0 <= k < entries@.len() ==> names_sorted((#[trigger] entries@[k]).1),
                forall|a: int, b: int|
                    0 <= a < b <= i && a != j && b != j ==> !name_less(
                        #[trigger] entries@[b].0@,
                        #[trigger] entries@[a].0@,
                    ),
                forall|b: int|
                    j < b <= i ==> !name_less(#[trigger] entries@[b].0@, entries@[j as int].0@),
            decreases j,
        {
            let ghost before = entries@;
            let entry = entries.remove(j);
            entries.insert(j - 1, entry);
            proof {
                assert(entries@ =~= before.update(j - 1, before[j as int]).update(
                    j as int,
                    before[j - 1],
                ));
                lemma_less_asymmetric(
                    encode_utf8(before[j as int].0@),
                    encode_utf8(before[j - 1].0@),
                );
                lemma_less_irreflexive(encode_utf8(before[j as int].0@));
                lemma_fields_swap(before, entries@, j - 1);
            }
            j = j - 1;
        }
        proof {
            let done = entries@.take(i + 1);
            assert forall|a: int, b: int| 0 <= a < b < done.len() implies !name_less(
                #[trigger] done[b].0@,
                #[trigger] done[a].0@,
            ) by {
                assert(done[a] == entries@[a]);
                assert(done[b] == entries@[b]);
                if b == j {
                    if a < j - 1 {
                        assert(!name_less(entries@[j - 1].0@, entries@[a].0@));
                        lemma_not_less_transitive(
                            encode_utf8(entries@[a].0@),
                            encode_utf8(entries@[j - 1].0@),
                            encode_utf8(entries@[b].0@),
                        );
                    }
                }
            }
        }
        i = i + 1;
    }
    assert(entries@.take(i as int) =~= entries@);
}

/// Sorts the fields of every object in `value` by name.
pub fn sort_object_keys(value: &mut JsonValue)
    ensures
        final(value)@ == old(value)@,
        names_sorted(*final(value)),
    decreases *old(value),
{
    let ghost before = *value;
    match value {
        JsonValue::Array(items) => {
            let ghost all = items@;
            let mut i: usize = 0;
            while i < items.len()
                invariant
                    i <= items.len(),
                    items.len() == all.len(),
                    before == *old(value),
                    before is Array,
                    before->Array_0@ == all,
                    forall|j: int| 0 <= j < i ==> (#[trigger] items@[j]).json() == all[j].json(),
                    forall|j: int| 0 <= j < i ==> names_sorted(#[trigger] items@[j]),
                    forall|j: int| i <= j < all.len() ==> items@[j] == all[j],
                decreases items.len() - i,
            {
                proof {
                    lemma_element_smaller(before, i as int);
                }
                sort_object_keys(&mut items[i]);
                i = i + 1;
            }
            proof {
                lemma_array_view(before);
                assert(jsons(items@) =~= jsons(all));
            }
        },
        JsonValue::Object(object) => {
            let ghost all = object.entries@;
            let mut i: usize = 0;
            while i < object.entries.len()
                invariant
                    i <= object.entries.len(),
                    object.entries.len() == all.len(),
                    before == *old(value),
                    before is Object,
                    before->Object_0.entries@ == all,
                    fields(object.entries@.take(i as int)) == fields(all.take(i as int)),
                    forall|j: int| 0 <= j < i ==> names_sorted((#[trigger] object.entries@[j]).1),
                    forall|j: int| i <= j < all.len() ==> object.entries@[j] == all[j],
                decreases object.entries.len() - i,
            {
                let ghost now = object.entries@;
                proof {
                    lemma_field_smaller(before, i as int);
                }
                sort_object_keys(&mut object.entries[i].1);
                proof {
                    assert(object.entries@.take(i + 1).drop_last() =~= now.take(i as int));
                    assert(all.take(i + 1).drop_last() =~= all.take(i as int));
                }
                i = i + 1;
            }
            proof {
                assert(object.entries@.take(i as int) =~= object.entries@);
                assert(all.take(i as int) =~= all);
            }
            sort_entries(&mut object.entries);
        },
        _ => {},
    }
    proof {
        if before is Array {
            lemma_array_view(*value);
        }
    }
}

} // verus!

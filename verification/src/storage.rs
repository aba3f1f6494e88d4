//! What the node keeps in the key-value service, and how it is written
//! there: a chunk is an array of numbers; the root and each partition are
//! objects that map the decimal text of a number to a name.
use crate::json::{
    counts, items_view, last_named, lemma_items_push, lemma_items_view, lemma_members_lookup, lemma_members_push, members_view, Json, JsonValue,
};
use crate::table::{entries_view, lemma_entries_push, Table};
use crate::text::{
    decimal, decimal_u64, lemma_decimal_value, lemma_value_decimal, parse_u64, render_u64,
};
use vstd::prelude::*;

verus! {

/// A list of numbers as a JSON array.
pub open spec fn list_json(list: Seq<u64>) -> JsonValue {
    JsonValue::Array(list.map_values(|n: u64| JsonValue::Number(n)))
}

/// The list of numbers that a JSON value holds, if it is an array of
/// numbers.
pub open spec fn json_list(j: JsonValue) -> Option<Seq<u64>> {
    match j {
        JsonValue::Array(items) => if forall|i: int|
            0 <= i < items.len() ==> (#[trigger] items[i]) is Number {
            Some(items.map_values(|item: JsonValue| item->Number_0))
        } else {
            None
        },
        _ => None,
    }
}

/// A map from numbers to names as a JSON object: each number by its
/// decimal text.
pub open spec fn ids_json(ids: Map<u64, Seq<char>>) -> JsonValue {
    JsonValue::Object(
        Map::new(
            |name: Seq<char>|
                decimal_u64(name) is Some && ids.contains_key(decimal_u64(name).unwrap()),
            |name: Seq<char>| JsonValue::Str(ids[decimal_u64(name).unwrap()]),
        ),
    )
}

/// The map from numbers to names that a JSON value holds, if it is an
/// object whose every name is the decimal text of a number within 64 bits
/// and whose every value is a string.
pub open spec fn json_ids(j: JsonValue) -> Option<Map<u64, Seq<char>>> {
    match j {
        JsonValue::Object(o) => if forall|name: Seq<char>| #[trigger]
            o.contains_key(name) ==> decimal_u64(name) is Some && o[name] is Str {
            Some(
                Map::new(
                    |k: u64| o.contains_key(decimal(k as nat)),
                    |k: u64| o[decimal(k as nat)]->Str_0,
                ),
            )
        } else {
            None
        },
        _ => None,
    }
}

/// A list that is written out and read back is the same list.
pub proof fn lemma_list_round_trip(list: Seq<u64>)
    ensures
        json_list(list_json(list)) == Some(list),
{
    let items = list.map_values(|n: u64| JsonValue::Number(n));
    assert(items.map_values(|item: JsonValue| item->Number_0) =~= list);
}

/// A text is the decimal text of `k` exactly if it reads as `k`.
pub proof fn lemma_decimal_u64(name: Seq<char>, k: u64)
    ensures
        decimal_u64(name) == Some(k) <==> name == decimal(k as nat),
{
    if decimal_u64(name) == Some(k) {
        lemma_value_decimal(name);
    }
    if name == decimal(k as nat) {
        lemma_decimal_value(k as nat);
    }
}

/// A map of names that is written out and read back is the same map.
pub proof fn lemma_ids_round_trip(ids: Map<u64, Seq<char>>)
    ensures
        json_ids(ids_json(ids)) == Some(ids),
{
    let o = ids_json(ids)->Object_0;
    assert forall|k: u64| o.contains_key(decimal(k as nat)) == ids.contains_key(k) by {
        lemma_decimal_u64(decimal(k as nat), k);
    }
    assert forall|k: u64| ids.contains_key(k) implies o[decimal(k as nat)]->Str_0 == ids[k] by {
        lemma_decimal_u64(decimal(k as nat), k);
    }
    assert(Map::new(
        |k: u64| o.contains_key(decimal(k as nat)),
        |k: u64| o[decimal(k as nat)]->Str_0,
    ) =~= ids);
}

/// An object that reads as a map of names is what that map is written as.
pub proof fn lemma_ids_inverse(j: JsonValue)
    requires
        json_ids(j) is Some,
    ensures
        ids_json(json_ids(j).unwrap()) == j,
{
    let o = j->Object_0;
    let ids = json_ids(j).unwrap();
    let back = ids_json(ids)->Object_0;
    assert forall|name: Seq<char>| back.contains_key(name) == o.contains_key(name) by {
        if o.contains_key(name) {
            lemma_decimal_u64(name, decimal_u64(name).unwrap());
        }
        if back.contains_key(name) {
            lemma_decimal_u64(name, decimal_u64(name).unwrap());
        }
    }
    assert forall|name: Seq<char>| back.contains_key(name) implies back[name] == o[name] by {
        lemma_decimal_u64(name, decimal_u64(name).unwrap());
        assert(o.contains_key(name));
    }
    assert(back =~= o);
}

/// Writes a list of numbers as a JSON array.
pub fn encode_list(list: &Vec<u64>) -> (r: Json)
    ensures
        r@ == list_json(list@),
{
    let mut items: Vec<Json> = Vec::new();
    let mut i: usize = 0;
    while i < list.len()
        invariant
            0 <= i <= list.len(),
            items_view(items@) == list@.take(i as int).map_values(|n: u64| JsonValue::Number(n)),
        decreases list.len() - i,
    {
        let item = Json::Number(list[i]);
        proof {
            lemma_items_push(items@, item);
            assert(list@.take(i + 1).map_values(|n: u64| JsonValue::Number(n)) =~= list@.take(
                i as int,
            ).map_values(|n: u64| JsonValue::Number(n)).push(item@));
        }
        items.push(item);
        i += 1;
    }
    proof {
        assert(list@.take(list.len() as int) =~= list@);
    }
    Json::Array(items)
}

/// Reads a list of numbers from a JSON array. `None` for any other value.
pub fn decode_list(j: &Json) -> (r: Option<Vec<u64>>)
    ensures
        match r {
            Some(list) => json_list(j@) == Some(list@),
            None => json_list(j@) is None,
        },
{
    match j.as_array() {
        None => None,
        Some(items) => {
            let mut list: Vec<u64> = Vec::new();
            let mut i: usize = 0;
            proof {
                lemma_items_view(items@);
            }
            while i < items.len()
                invariant
                    0 <= i <= items.len(),
                    j@ == JsonValue::Array(items_view(items@)),
                    items_view(items@).len() == items.len(),
                    forall|m: int|
                        0 <= m < items.len() ==> #[trigger] items_view(items@)[m] == items[m]@,
                    list.len() == i,
                    forall|m: int|
                        0 <= m < i ==> items_view(items@)[m] == JsonValue::Number(
                            #[trigger] list[m],
                        ),
                decreases items.len() - i,
            {
                match items[i].as_u64() {
                    None => {
                        assert(!(items_view(items@)[i as int] is Number));
                        return None;
                    },
                    Some(n) => {
                        list.push(n);
                    },
                }
                i += 1;
            }
            proof {
                let values = items_view(items@);
                assert forall|m: int| 0 <= m < values.len() implies (#[trigger] values[m])
                    is Number by {
                    assert(values[m] == JsonValue::Number(list[m]));
                }
                assert(values.map_values(|item: JsonValue| item->Number_0) =~= list@);
            }
            Some(list)
        },
    }
}

/// Setting a number in a map of names sets its decimal text in the object.
pub proof fn lemma_ids_insert(ids: Map<u64, Seq<char>>, k: u64, v: Seq<char>)
    ensures
        ids_json(ids.insert(k, v)) == JsonValue::Object(
            ids_json(ids)->Object_0.insert(decimal(k as nat), JsonValue::Str(v)),
        ),
{
    let left = ids_json(ids.insert(k, v))->Object_0;
    let right = ids_json(ids)->Object_0.insert(decimal(k as nat), JsonValue::Str(v));
    assert forall|name: Seq<char>| left.contains_key(name) == right.contains_key(name) by {
        lemma_decimal_u64(name, k);
    }
    assert forall|name: Seq<char>| left.contains_key(name) implies left[name] == right[name] by {
        lemma_decimal_u64(name, k);
    }
    assert(left =~= right);
}

/// Writes a map from numbers to names as a JSON object.
pub fn encode_ids(ids: &Table<String>) -> (r: Json)
    ensures
        r@ == ids_json(ids@),
{
    let mut members: Vec<(String, Json)> = Vec::new();
    let mut i: usize = 0;
    proof {
        assert(ids_json(Map::empty())->Object_0 =~= Map::<Seq<char>, JsonValue>::empty());
    }
    while i < ids.entries.len()
        invariant
            0 <= i <= ids.entries.len(),
            JsonValue::Object(members_view(members@)) == ids_json(
                entries_view(ids.entries@.take(i as int)),
            ),
        decreases ids.entries.len() - i,
    {
        let name = render_u64(ids.entries[i].0);
        let value = Json::Str(ids.entries[i].1.clone());
        proof {
            let head = ids.entries@.take(i as int);
            assert(ids.entries@.take(i + 1) =~= head.push(ids.entries@[i as int]));
            lemma_entries_push(head, ids.entries@[i as int]);
            lemma_members_push(members@, (name, value));
            lemma_ids_insert(entries_view(head), ids.entries@[i as int].0, ids.entries@[i as int].1@);
        }
        members.push((name, value));
        i += 1;
    }
    proof {
        assert(ids.entries@.take(ids.entries.len() as int) =~= ids.entries@);
    }
    Json::Object(members)
}

/// Reads a map from numbers to names from a JSON object. `None` for any
/// other value, and for an object with a name that is no decimal number
/// within 64 bits or a value that is no string.
pub fn decode_ids(j: &Json) -> (r: Option<Table<String>>)
    ensures
        match r {
            Some(ids) => json_ids(j@) == Some(ids@),
            None => json_ids(j@) is None,
        },
{
    match j.as_object() {
        None => None,
        Some(members) => {
            let ghost o = members_view(members@);
            let mut ids: Table<String> = Table::new();
            let mut i: usize = 0;
            while i < members.len()
                invariant
                    0 <= i <= members.len(),
                    j@ == JsonValue::Object(o),
                    o == members_view(members@),
                    forall|name: Seq<char>|
                        0 <= #[trigger] last_named(members@, name) < i ==> decimal_u64(name)
                            is Some && o[name] is Str,
                    forall|k: u64|
                        ids@.contains_key(k) <==> 0 <= #[trigger] last_named(
                            members@,
                            decimal(k as nat),
                        ) < i,
                    forall|k: u64| #[trigger]
                        ids@.contains_key(k) ==> ids@[k] == o[decimal(k as nat)]->Str_0,
                decreases members.len() - i,
            {
                if counts(members, i) {
                    let ghost name = members[i as int].0@;
                    proof {
                        lemma_members_lookup(members@, name);
                    }
                    let key = match parse_u64(members[i].0.as_str()) {
                        Some(key) => key,
                        None => {
                            assert(o.contains_key(name));
                            return None;
                        },
                    };
                    let value = match members[i].1.as_str() {
                        Some(value) => value.to_owned(),
                        None => {
                            assert(o.contains_key(name));
                            return None;
                        },
                    };
                    proof {
                        lemma_decimal_u64(name, key);
                        assert forall|k: u64|
                            ids@.insert(key, value@).contains_key(k) <==> 0 <= #[trigger] last_named(
                                members@,
                                decimal(k as nat),
                            ) < i + 1 by {
                            lemma_members_lookup(members@, decimal(k as nat));
                            lemma_decimal_u64(decimal(k as nat), k);
                            lemma_decimal_u64(name, k);
                        }
                        assert forall|name2: Seq<char>|
                            0 <= #[trigger] last_named(members@, name2) < i + 1 implies decimal_u64(
                            name2,
                        ) is Some && o[name2] is Str by {
                            lemma_members_lookup(members@, name2);
                        }
                    }
                    ids.insert(key, value);
                } else {
                    proof {
                        assert forall|name2: Seq<char>|
                            0 <= #[trigger] last_named(members@, name2) < i + 1 implies decimal_u64(
                            name2,
                        ) is Some && o[name2] is Str by {
                            lemma_members_lookup(members@, name2);
                        }
                        assert forall|k: u64|
                            ids@.contains_key(k) <==> 0 <= #[trigger] last_named(
                                members@,
                                decimal(k as nat),
                            ) < i + 1 by {
                            lemma_members_lookup(members@, decimal(k as nat));
                        }
                    }
                }
                i += 1;
            }
            proof {
                assert forall|name: Seq<char>| #[trigger] o.contains_key(name) implies decimal_u64(
                    name,
                ) is Some && o[name] is Str by {
                    lemma_members_lookup(members@, name);
                }
                assert forall|k: u64| ids@.contains_key(k) == o.contains_key(decimal(k as nat)) by {
                    lemma_members_lookup(members@, decimal(k as nat));
                }
                assert(ids@ =~= json_ids(j@).unwrap());
            }
            Some(ids)
        },
    }
}

} // verus!

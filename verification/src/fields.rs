//! The members of JSON objects as the protocol types them: what a member
//! of a given name holds when it is read as a string, a number, a list or
//! a transaction, and how such values are written back.
use crate::json::{
    counts, items_view, last_named, lemma_items_push, lemma_items_view, lemma_members_lookup,
    lemma_members_push, members_view, Json, JsonValue,
};
use crate::messages::{
    queries_view, texts, topology_view, Query, QueryValue, QueryValueView, QueryView,
};
use crate::storage::{decode_list, encode_list, json_list, list_json};
use vstd::prelude::*;

verus! {

/// The string under `name`.
pub open spec fn text_at(j: JsonValue, name: Seq<char>) -> Option<Seq<char>> {
    match j.field(name) {
        Some(JsonValue::Str(s)) => Some(s),
        _ => None,
    }
}

/// The number under `name`.
pub open spec fn number_at(j: JsonValue, name: Seq<char>) -> Option<u64> {
    match j.field(name) {
        Some(JsonValue::Number(n)) => Some(n),
        _ => None,
    }
}

/// The number under `name`, which may be left out or `null`. `None` where
/// the member holds anything else.
pub open spec fn optional_number_at(j: JsonValue, name: Seq<char>) -> Option<Option<u64>> {
    match j.field(name) {
        None => Some(None),
        Some(JsonValue::Null) => Some(None),
        Some(JsonValue::Number(n)) => Some(Some(n)),
        _ => None,
    }
}

/// The truth value under `name`.
pub open spec fn flag_at(j: JsonValue, name: Seq<char>) -> Option<bool> {
    match j.field(name) {
        Some(JsonValue::Bool(b)) => Some(b),
        _ => None,
    }
}

/// A list of strings as a JSON array.
pub open spec fn texts_json(list: Seq<Seq<char>>) -> JsonValue {
    JsonValue::Array(list.map_values(|t: Seq<char>| JsonValue::Str(t)))
}

/// The list of strings that a JSON value holds, if it is an array of
/// strings.
pub open spec fn json_texts(j: JsonValue) -> Option<Seq<Seq<char>>> {
    match j {
        JsonValue::Array(items) => if forall|i: int|
            0 <= i < items.len() ==> (#[trigger] items[i]) is Str {
            Some(items.map_values(|item: JsonValue| item->Str_0))
        } else {
            None
        },
        _ => None,
    }
}

/// What an operation carries, as JSON: `null` or a list for a read, a
/// number for an append.
pub open spec fn query_value_json(v: QueryValueView) -> JsonValue {
    match v {
        QueryValueView::Read(None) => JsonValue::Null,
        QueryValueView::Read(Some(list)) => list_json(list),
        QueryValueView::Append(n) => JsonValue::Number(n),
    }
}

/// What a JSON value is when it is read as what an operation carries.
pub open spec fn json_query_value(j: JsonValue) -> Option<QueryValueView> {
    match j {
        JsonValue::Null => Some(QueryValueView::Read(None)),
        JsonValue::Number(n) => Some(QueryValueView::Append(n)),
        JsonValue::Array(_) => match json_list(j) {
            Some(list) => Some(QueryValueView::Read(Some(list))),
            None => None,
        },
        _ => None,
    }
}

/// An operation as JSON: the array `[op, key, value]`.
pub open spec fn query_json(q: QueryView) -> JsonValue {
    JsonValue::Array(
        seq![JsonValue::Str(q.op), JsonValue::Number(q.key), query_value_json(q.value)],
    )
}

/// The operation that a JSON value holds, if it is an array of a string, a
/// number and a value.
pub open spec fn json_query(j: JsonValue) -> Option<QueryView> {
    match j {
        JsonValue::Array(items) => if items.len() == 3 && items[0] is Str && items[1] is Number
            && json_query_value(items[2]) is Some {
            Some(
                QueryView {
                    op: items[0]->Str_0,
                    key: items[1]->Number_0,
                    value: json_query_value(items[2]).unwrap(),
                },
            )
        } else {
            None
        },
        _ => None,
    }
}

/// A run of operations as a JSON array.
pub open spec fn queries_json(ops: Seq<QueryView>) -> JsonValue {
    JsonValue::Array(ops.map_values(|q: QueryView| query_json(q)))
}

/// The run of operations that a JSON value holds, if it is an array of
/// operations.
pub open spec fn json_queries(j: JsonValue) -> Option<Seq<QueryView>> {
    match j {
        JsonValue::Array(items) => if forall|i: int|
            0 <= i < items.len() ==> json_query(#[trigger] items[i]) is Some {
            Some(items.map_values(|item: JsonValue| json_query(item).unwrap()))
        } else {
            None
        },
        _ => None,
    }
}

/// A topology as a JSON object: each node with the array of its
/// neighbours.
pub open spec fn topology_json(t: Map<Seq<char>, Seq<Seq<char>>>) -> JsonValue {
    JsonValue::Object(
        Map::new(|name: Seq<char>| t.contains_key(name), |name: Seq<char>| texts_json(t[name])),
    )
}

/// The topology that a JSON value holds, if it is an object of arrays of
/// strings.
pub open spec fn json_topology(j: JsonValue) -> Option<Map<Seq<char>, Seq<Seq<char>>>> {
    match j {
        JsonValue::Object(o) => if forall|name: Seq<char>| #[trigger]
            o.contains_key(name) ==> json_texts(o[name]) is Some {
            Some(
                Map::new(
                    |name: Seq<char>| o.contains_key(name),
                    |name: Seq<char>| json_texts(o[name]).unwrap(),
                ),
            )
        } else {
            None
        },
        _ => None,
    }
}

/// A list of strings that is written out and read back is the same list.
pub proof fn lemma_texts_round_trip(list: Seq<Seq<char>>)
    ensures
        json_texts(texts_json(list)) == Some(list),
{
    let items = list.map_values(|t: Seq<char>| JsonValue::Str(t));
    assert(items.map_values(|item: JsonValue| item->Str_0) =~= list);
}

/// An operation that is written out and read back is the same operation.
pub proof fn lemma_query_round_trip(q: QueryView)
    ensures
        json_query(query_json(q)) == Some(q),
{
    match q.value {
        QueryValueView::Read(Some(list)) => {
            crate::storage::lemma_list_round_trip(list);
        },
        _ => {},
    }
}

/// A run of operations that is written out and read back is the same run.
pub proof fn lemma_queries_round_trip(ops: Seq<QueryView>)
    ensures
        json_queries(queries_json(ops)) == Some(ops),
{
    let items = ops.map_values(|q: QueryView| query_json(q));
    assert forall|i: int| 0 <= i < items.len() implies json_query(#[trigger] items[i])
        == Some(ops[i]) by {
        lemma_query_round_trip(ops[i]);
    }
    assert(items.map_values(|item: JsonValue| json_query(item).unwrap()) =~= ops);
}

/// A topology that is written out and read back is the same topology.
pub proof fn lemma_topology_round_trip(t: Map<Seq<char>, Seq<Seq<char>>>)
    ensures
        json_topology(topology_json(t)) == Some(t),
{
    let o = topology_json(t)->Object_0;
    assert forall|name: Seq<char>| #[trigger] o.contains_key(name) implies json_texts(o[name])
        == Some(t[name]) by {
        lemma_texts_round_trip(t[name]);
    }
    assert(Map::new(
        |name: Seq<char>| o.contains_key(name),
        |name: Seq<char>| json_texts(o[name]).unwrap(),
    ) =~= t);
}

/// The string under `name`.
pub fn get_text(j: &Json, name: &str) -> (r: Option<String>)
    ensures
        match r {
            Some(s) => text_at(j@, name@) == Some(s@),
            None => text_at(j@, name@) is None,
        },
{
    match j.get(name) {
        Some(v) => match v.as_str() {
            Some(s) => Some(s.to_owned()),
            None => None,
        },
        None => None,
    }
}

/// The number under `name`.
pub fn get_number(j: &Json, name: &str) -> (r: Option<u64>)
    ensures
        r == number_at(j@, name@),
{
    match j.get(name) {
        Some(v) => v.as_u64(),
        None => None,
    }
}

/// The number under `name`, which may be left out or `null`.
pub fn get_optional_number(j: &Json, name: &str) -> (r: Option<Option<u64>>)
    ensures
        r == optional_number_at(j@, name@),
{
    match j.get(name) {
        None => Some(None),
        Some(v) => {
            if v.is_null() {
                Some(None)
            } else {
                match v.as_u64() {
                    Some(n) => Some(Some(n)),
                    None => None,
                }
            }
        },
    }
}

/// The truth value under `name`.
pub fn get_flag(j: &Json, name: &str) -> (r: Option<bool>)
    ensures
        r == flag_at(j@, name@),
{
    match j.get(name) {
        Some(v) => v.as_bool(),
        None => None,
    }
}

/// Writes a list of strings as a JSON array.
pub fn encode_texts(list: &Vec<String>) -> (r: Json)
    ensures
        r@ == texts_json(texts(list@)),
{
    let mut items: Vec<Json> = Vec::new();
    let mut i: usize = 0;
    let ghost all = texts(list@);
    while i < list.len()
        invariant
            0 <= i <= list.len(),
            all == texts(list@),
            items_view(items@) == all.take(i as int).map_values(|t: Seq<char>| JsonValue::Str(t)),
        decreases list.len() - i,
    {
        let item = Json::Str(list[i].clone());
        proof {
            lemma_items_push(items@, item);
            assert(all.take(i + 1).map_values(|t: Seq<char>| JsonValue::Str(t)) =~= all.take(
                i as int,
            ).map_values(|t: Seq<char>| JsonValue::Str(t)).push(item@));
        }
        items.push(item);
        i += 1;
    }
    proof {
        assert(all.take(list.len() as int) =~= all);
    }
    Json::Array(items)
}

/// Reads a list of strings from a JSON array. `None` for any other value.
pub fn decode_texts(j: &Json) -> (r: Option<Vec<String>>)
    ensures
        match r {
            Some(list) => json_texts(j@) == Some(texts(list@)),
            None => json_texts(j@) is None,
        },
{
    match j.as_array() {
        None => None,
        Some(items) => {
            let mut list: Vec<String> = Vec::new();
            let mut i: usize = 0;
            proof {
                lemma_items_view(items@);
            }
            while i < items.len()
                invariant
                    0 <= i <= items.len(),
                    j@ == JsonValue::Array(items_view(items@)),
                    items_view(items@).len() == items.len(),
                    forall|m: int|
                        0 <= m < items.len() ==> #[trigger] items_view(items@)[m] == items[m]@,
                    list.len() == i,
                    forall|m: int|
                        0 <= m < i ==> items_view(items@)[m] == JsonValue::Str(
                            (#[trigger] list[m])@,
                        ),
                decreases items.len() - i,
            {
                match items[i].as_str() {
                    None => {
                        assert(!(items_view(items@)[i as int] is Str));
                        return None;
                    },
                    Some(s) => {
                        list.push(s.to_owned());
                    },
                }
                i += 1;
            }
            proof {
                let values = items_view(items@);
                assert forall|m: int| 0 <= m < values.len() implies (#[trigger] values[m])
                    is Str by {
                    assert(values[m] == JsonValue::Str(list[m]@));
                }
                assert(values.map_values(|item: JsonValue| item->Str_0) =~= texts(list@));
            }
            Some(list)
        },
    }
}

/// Writes an operation as the array `[op, key, value]`.
pub fn encode_query(q: &Query) -> (r: Json)
    ensures
        r@ == query_json(q@),
{
    let value = match &q.2 {
        QueryValue::Read(None) => Json::Null,
        QueryValue::Read(Some(list)) => encode_list(list),
        QueryValue::Append(n) => Json::Number(*n),
    };
    let mut items: Vec<Json> = Vec::new();
    let op = Json::Str(q.0.clone());
    let key = Json::Number(q.1);
    proof {
        lemma_items_push(items@, op);
        lemma_items_push(items@.push(op), key);
        lemma_items_push(items@.push(op).push(key), value);
        assert(items_view(items@) =~= Seq::<JsonValue>::empty());
    }
    items.push(op);
    items.push(key);
    items.push(value);
    proof {
        assert(items_view(items@) =~= seq![op@, key@, value@]);
    }
    Json::Array(items)
}

/// Reads an operation from the array `[op, key, value]`. `None` for any
/// other value.
pub fn decode_query(j: &Json) -> (r: Option<Query>)
    ensures
        match r {
            Some(q) => json_query(j@) == Some(q@),
            None => json_query(j@) is None,
        },
{
    let items = match j.as_array() {
        Some(items) => items,
        None => {
            return None;
        },
    };
    proof {
        lemma_items_view(items@);
    }
    if items.len() != 3 {
        return None;
    }
    let op = match items[0].as_str() {
        Some(op) => op.to_owned(),
        None => {
            return None;
        },
    };
    let key = match items[1].as_u64() {
        Some(key) => key,
        None => {
            return None;
        },
    };
    let value = match &items[2] {
        Json::Null => QueryValue::Read(None),
        Json::Number(n) => QueryValue::Append(*n),
        Json::Array(_) => match decode_list(&items[2]) {
            Some(list) => QueryValue::Read(Some(list)),
            None => {
                return None;
            },
        },
        _ => {
            return None;
        },
    };
    Some(Query(op, key, value))
}

/// Writes a run of operations as a JSON array.
pub fn encode_queries(ops: &Vec<Query>) -> (r: Json)
    ensures
        r@ == queries_json(queries_view(ops@)),
{
    let mut items: Vec<Json> = Vec::new();
    let mut i: usize = 0;
    let ghost all = queries_view(ops@);
    while i < ops.len()
        invariant
            0 <= i <= ops.len(),
            all == queries_view(ops@),
            items_view(items@) == all.take(i as int).map_values(|q: QueryView| query_json(q)),
        decreases ops.len() - i,
    {
        let item = encode_query(&ops[i]);
        proof {
            lemma_items_push(items@, item);
            assert(all.take(i + 1).map_values(|q: QueryView| query_json(q)) =~= all.take(
                i as int,
            ).map_values(|q: QueryView| query_json(q)).push(item@));
        }
        items.push(item);
        i += 1;
    }
    proof {
        assert(all.take(ops.len() as int) =~= all);
    }
    Json::Array(items)
}

/// Reads a run of operations from a JSON array. `None` for any other
/// value.
pub fn decode_queries(j: &Json) -> (r: Option<Vec<Query>>)
    ensures
        match r {
            Some(ops) => json_queries(j@) == Some(queries_view(ops@)),
            None => json_queries(j@) is None,
        },
{
    match j.as_array() {
        None => None,
        Some(items) => {
            let mut ops: Vec<Query> = Vec::new();
            let mut i: usize = 0;
            proof {
                lemma_items_view(items@);
            }
            while i < items.len()
                invariant
                    0 <= i <= items.len(),
                    j@ == JsonValue::Array(items_view(items@)),
                    items_view(items@).len() == items.len(),
                    forall|m: int|
                        0 <= m < items.len() ==> #[trigger] items_view(items@)[m] == items[m]@,
                    ops.len() == i,
                    forall|m: int|
                        0 <= m < i ==> json_query(items_view(items@)[m]) == Some(
                            (#[trigger] ops[m])@,
                        ),
                decreases items.len() - i,
            {
                match decode_query(&items[i]) {
                    None => {
                        assert(json_query(items_view(items@)[i as int]) is None);
                        return None;
                    },
                    Some(q) => {
                        ops.push(q);
                    },
                }
                i += 1;
            }
            proof {
                let values = items_view(items@);
                assert forall|m: int| 0 <= m < values.len() implies json_query(
                    #[trigger] values[m],
                ) is Some by {
                    assert(json_query(values[m]) == Some(ops[m]@));
                }
                assert(values.map_values(|item: JsonValue| json_query(item).unwrap())
                    =~= queries_view(ops@));
            }
            Some(ops)
        },
    }
}

/// Setting a node in a topology sets its name in the object.
pub proof fn lemma_topology_insert(
    t: Map<Seq<char>, Seq<Seq<char>>>,
    name: Seq<char>,
    to: Seq<Seq<char>>,
)
    ensures
        topology_json(t.insert(name, to)) == JsonValue::Object(
            topology_json(t)->Object_0.insert(name, texts_json(to)),
        ),
{
    assert(topology_json(t.insert(name, to))->Object_0 =~= topology_json(t)->Object_0.insert(
        name,
        texts_json(to),
    ));
}

/// Writes a topology as a JSON object.
pub fn encode_topology(t: &Vec<(String, Vec<String>)>) -> (r: Json)
    ensures
        r@ == topology_json(topology_view(t@)),
{
    let mut members: Vec<(String, Json)> = Vec::new();
    let mut i: usize = 0;
    proof {
        assert(topology_json(Map::empty())->Object_0 =~= Map::<Seq<char>, JsonValue>::empty());
    }
    while i < t.len()
        invariant
            0 <= i <= t.len(),
            JsonValue::Object(members_view(members@)) == topology_json(
                topology_view(t@.take(i as int)),
            ),
        decreases t.len() - i,
    {
        let name = t[i].0.clone();
        let value = encode_texts(&t[i].1);
        proof {
            let head = t@.take(i as int);
            assert(t@.take(i + 1).drop_last() =~= head);
            assert(t@.take(i + 1).last() == t@[i as int]);
            lemma_members_push(members@, (name, value));
            lemma_topology_insert(topology_view(head), t@[i as int].0@, texts(t@[i as int].1@));
        }
        members.push((name, value));
        i += 1;
    }
    proof {
        assert(t@.take(t.len() as int) =~= t@);
    }
    Json::Object(members)
}

/// Reads a topology from a JSON object. `None` for any other value, and
/// for an object with a value that is no array of strings.
pub fn decode_topology(j: &Json) -> (r: Option<Vec<(String, Vec<String>)>>)
    ensures
        match r {
            Some(t) => json_topology(j@) == Some(topology_view(t@)),
            None => json_topology(j@) is None,
        },
{
    match j.as_object() {
        None => None,
        Some(members) => {
            let ghost o = members_view(members@);
            let mut t: Vec<(String, Vec<String>)> = Vec::new();
            let mut i: usize = 0;
            while i < members.len()
                invariant
                    0 <= i <= members.len(),
                    j@ == JsonValue::Object(o),
                    o == members_view(members@),
                    forall|name: Seq<char>|
                        0 <= #[trigger] last_named(members@, name) < i ==> json_texts(o[name])
                            is Some,
                    forall|name: Seq<char>|
                        topology_view(t@).contains_key(name) <==> 0 <= #[trigger] last_named(
                            members@,
                            name,
                        ) < i,
                    forall|name: Seq<char>| #[trigger]
                        topology_view(t@).contains_key(name) ==> topology_view(t@)[name]
                            == json_texts(o[name]).unwrap(),
                decreases members.len() - i,
            {
                if counts(members, i) {
                    let ghost name = members[i as int].0@;
                    proof {
                        lemma_members_lookup(members@, name);
                    }
                    let to = match decode_texts(&members[i].1) {
                        Some(to) => to,
                        None => {
                            assert(o.contains_key(name));
                            return None;
                        },
                    };
                    let entry = (members[i].0.clone(), to);
                    proof {
                        assert(t@.push(entry).drop_last() =~= t@);
                        assert forall|name2: Seq<char>|
                            topology_view(t@.push(entry)).contains_key(name2) <==> 0
                                <= #[trigger] last_named(members@, name2) < i + 1 by {
                            lemma_members_lookup(members@, name2);
                        }
                        assert forall|name2: Seq<char>|
                            0 <= #[trigger] last_named(members@, name2) < i + 1 implies json_texts(
                            o[name2],
                        ) is Some by {
                            lemma_members_lookup(members@, name2);
                        }
                    }
                    t.push(entry);
                } else {
                    proof {
                        assert forall|name2: Seq<char>|
                            0 <= #[trigger] last_named(members@, name2) < i + 1 implies json_texts(
                            o[name2],
                        ) is Some by {
                            lemma_members_lookup(members@, name2);
                        }
                        assert forall|name2: Seq<char>|
                            topology_view(t@).contains_key(name2) <==> 0 <= #[trigger] last_named(
                                members@,
                                name2,
                            ) < i + 1 by {
                            lemma_members_lookup(members@, name2);
                        }
                    }
                }
                i += 1;
            }
            proof {
                assert forall|name: Seq<char>| #[trigger] o.contains_key(name) implies json_texts(
                    o[name],
                ) is Some by {
                    lemma_members_lookup(members@, name);
                }
                assert forall|name: Seq<char>|
                    topology_view(t@).contains_key(name) == o.contains_key(name) by {
                    lemma_members_lookup(members@, name);
                }
                assert(topology_view(t@) =~= json_topology(j@).unwrap());
            }
            Some(t)
        },
    }
}

} // verus!

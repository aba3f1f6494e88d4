//! JSON values as this node reads and writes them.
use crate::text::same_text;
use vstd::prelude::*;

verus! {

/// A JSON value whose numbers are unsigned 64-bit integers.
#[derive(Debug, PartialEq, Eq)]
pub enum Json {
    Null,
    Bool(bool),
    Number(u64),
    Str(String),
    Array(Vec<Json>),
    Object(Vec<(String, Json)>),
}

/// What a [`Json`] means: an object is a map from names to values, so the
/// order of its members and a member shadowed by a later one of the same
/// name do not count.
pub enum JsonValue {
    Null,
    Bool(bool),
    Number(u64),
    Str(Seq<char>),
    Array(Seq<JsonValue>),
    Object(Map<Seq<char>, JsonValue>),
}

/// The values of a run of items.
pub open spec fn items_view(items: Seq<Json>) -> Seq<JsonValue>
    decreases items,
{
    if items.len() == 0 {
        Seq::empty()
    } else {
        items_view(items.drop_last()).push(items.last().view())
    }
}

/// The map that a run of members builds: a later member replaces an earlier
/// one of the same name.
pub open spec fn members_view(members: Seq<(String, Json)>) -> Map<Seq<char>, JsonValue>
    decreases members,
{
    if members.len() == 0 {
        Map::empty()
    } else {
        members_view(members.drop_last()).insert(members.last().0@, members.last().1.view())
    }
}

impl View for Json {
    type V = JsonValue;

    open spec fn view(&self) -> JsonValue
        decreases self,
    {
        match self {
            Json::Null => JsonValue::Null,
            Json::Bool(b) => JsonValue::Bool(*b),
            Json::Number(n) => JsonValue::Number(*n),
            Json::Str(s) => JsonValue::Str(s@),
            Json::Array(items) => JsonValue::Array(items_view(items@)),
            Json::Object(members) => JsonValue::Object(members_view(members@)),
        }
    }
}

impl Json {
    /// The member of an object under `name`.
    pub fn get(&self, name: &str) -> (r: Option<&Json>)
        ensures
            match r {
                Some(j) => self@.field(name@) == Some(j@),
                None => self@.field(name@) is None,
            },
    {
        match self {
            Json::Object(members) => {
                let mut i: usize = members.len();
                proof {
                    assert(members@.take(i as int) =~= members@);
                }
                while i > 0
                    invariant
                        0 <= i <= members.len(),
                        self@ == JsonValue::Object(members_view(members@)),
                        members_view(members@).contains_key(name@) == members_view(
                            members@.take(i as int),
                        ).contains_key(name@),
                        members_view(members@).contains_key(name@) ==> members_view(
                            members@,
                        )[name@] == members_view(members@.take(i as int))[name@],
                    decreases i,
                {
                    proof {
                        let head = members@.take(i as int);
                        assert(head.drop_last() =~= members@.take(i - 1));
                        assert(head.last() == members@[i - 1]);
                        assert(members_view(head) == members_view(head.drop_last()).insert(
                            head.last().0@,
                            head.last().1@,
                        ));
                    }
                    i -= 1;
                    if same_text(members[i].0.as_str(), name) {
                        return Some(&members[i].1);
                    }
                }
                None
            },
            _ => None,
        }
    }

    /// The number, if this is one.
    pub fn as_u64(&self) -> (r: Option<u64>)
        ensures
            r == (match self@ {
                JsonValue::Number(n) => Some(n),
                _ => None,
            }),
    {
        match self {
            Json::Number(n) => Some(*n),
            _ => None,
        }
    }

    /// The text, if this is a string.
    pub fn as_str(&self) -> (r: Option<&str>)
        ensures
            match r {
                Some(s) => self@ == JsonValue::Str(s@),
                None => !(self@ is Str),
            },
    {
        match self {
            Json::Str(s) => Some(s.as_str()),
            _ => None,
        }
    }

    /// The truth value, if this is one.
    pub fn as_bool(&self) -> (r: Option<bool>)
        ensures
            r == (match self@ {
                JsonValue::Bool(b) => Some(b),
                _ => None,
            }),
    {
        match self {
            Json::Bool(b) => Some(*b),
            _ => None,
        }
    }

    /// The items, if this is an array.
    pub fn as_array(&self) -> (r: Option<&Vec<Json>>)
        ensures
            match r {
                Some(items) => self@ == JsonValue::Array(items_view(items@)),
                None => !(self@ is Array),
            },
    {
        match self {
            Json::Array(items) => Some(items),
            _ => None,
        }
    }

    /// The members, if this is an object: each name with its value, a later
    /// member replacing an earlier one of the same name.
    pub fn as_object(&self) -> (r: Option<&Vec<(String, Json)>>)
        ensures
            match r {
                Some(members) => self@ == JsonValue::Object(members_view(members@)),
                None => !(self@ is Object),
            },
    {
        match self {
            Json::Object(members) => Some(members),
            _ => None,
        }
    }

    /// Whether this is `null`.
    pub fn is_null(&self) -> (r: bool)
        ensures
            r == (self@ is Null),
    {
        match self {
            Json::Null => true,
            _ => false,
        }
    }

    /// A copy of this value.
    pub fn duplicate(&self) -> (r: Json)
        ensures
            r@ == self@,
        decreases self,
    {
        match self {
            Json::Null => Json::Null,
            Json::Bool(b) => Json::Bool(*b),
            Json::Number(n) => Json::Number(*n),
            Json::Str(s) => Json::Str(s.clone()),
            Json::Array(items) => {
                let mut out: Vec<Json> = Vec::new();
                let mut i: usize = 0;
                while i < items.len()
                    invariant
                        0 <= i <= items.len(),
                        out.len() == i,
                        items_view(out@) == items_view(items@.take(i as int)),
                        self is Array,
                        self->Array_0 == *items,
                    decreases items.len() - i,
                {
                    proof {
                        vstd::std_specs::vec::axiom_vec_index_decreases(*items, i as int);
                    }
                    let item = items[i].duplicate();
                    proof {
                        assert(items@.take(i + 1).drop_last() =~= items@.take(i as int));
                        assert(out@.push(item).drop_last() =~= out@);
                    }
                    out.push(item);
                    i += 1;
                }
                proof {
                    assert(items@.take(items.len() as int) =~= items@);
                }
                Json::Array(out)
            },
            Json::Object(members) => {
                let mut out: Vec<(String, Json)> = Vec::new();
                let mut i: usize = 0;
                while i < members.len()
                    invariant
                        0 <= i <= members.len(),
                        out.len() == i,
                        members_view(out@) == members_view(members@.take(i as int)),
                        self is Object,
                        self->Object_0 == *members,
                    decreases members.len() - i,
                {
                    let name = members[i].0.clone();
                    proof {
                        vstd::std_specs::vec::axiom_vec_index_decreases(*members, i as int);
                    }
                    let value = members[i].1.duplicate();
                    proof {
                        assert(members@.take(i + 1).drop_last() =~= members@.take(i as int));
                        assert(out@.push((name, value)).drop_last() =~= out@);
                    }
                    out.push((name, value));
                    i += 1;
                }
                proof {
                    assert(members@.take(members.len() as int) =~= members@);
                }
                Json::Object(out)
            },
        }
    }
}

/// Adding an item to a run adds its value to the values.
pub proof fn lemma_items_push(items: Seq<Json>, item: Json)
    ensures
        items_view(items.push(item)) == items_view(items).push(item@),
{
    assert(items.push(item).drop_last() =~= items);
}

/// The values of a run of items, one by one.
pub proof fn lemma_items_view(items: Seq<Json>)
    ensures
        items_view(items).len() == items.len(),
        forall|i: int| 0 <= i < items.len() ==> #[trigger] items_view(items)[i] == items[i]@,
    decreases items.len(),
{
    if items.len() > 0 {
        lemma_items_view(items.drop_last());
        assert(items_view(items) == items_view(items.drop_last()).push(items.last()@));
        assert forall|i: int| 0 <= i < items.len() implies #[trigger] items_view(items)[i]
            == items[i]@ by {
            if i < items.len() - 1 {
                assert(items_view(items.drop_last())[i] == items.drop_last()[i]@);
            }
        }
    }
}

/// Adding a member to a run sets its name in the map.
pub proof fn lemma_members_push(members: Seq<(String, Json)>, member: (String, Json))
    ensures
        members_view(members.push(member)) == members_view(members).insert(
            member.0@,
            member.1@,
        ),
{
    assert(members.push(member).drop_last() =~= members);
}

/// The place of the last member named `name`, or -1 if there is none.
pub open spec fn last_named(members: Seq<(String, Json)>, name: Seq<char>) -> int
    decreases members.len(),
{
    if members.len() == 0 {
        -1
    } else if members.last().0@ == name {
        members.len() - 1
    } else {
        last_named(members.drop_last(), name)
    }
}

/// A name is in the map exactly if some member has it, and it maps to the
/// value of the last member that has it.
pub proof fn lemma_members_lookup(members: Seq<(String, Json)>, name: Seq<char>)
    ensures
        -1 <= last_named(members, name) < members.len(),
        last_named(members, name) >= 0 ==> {
            &&& members[last_named(members, name)].0@ == name
            &&& members_view(members).contains_key(name)
            &&& members_view(members)[name] == members[last_named(members, name)].1@
        },
        last_named(members, name) < 0 ==> !members_view(members).contains_key(name),
    decreases members.len(),
{
    if members.len() > 0 {
        lemma_members_lookup(members.drop_last(), name);
        assert(members_view(members) == members_view(members.drop_last()).insert(
            members.last().0@,
            members.last().1@,
        ));
    }
}

/// The last member with a name is at or after any member with that name.
pub proof fn lemma_last_named_bound(members: Seq<(String, Json)>, i: int)
    requires
        0 <= i < members.len(),
    ensures
        i <= last_named(members, members[i].0@) < members.len(),
    decreases members.len(),
{
    if members.last().0@ != members[i].0@ {
        lemma_last_named_bound(members.drop_last(), i);
    }
}

/// No member after the last one with a name has that name.
pub proof fn lemma_last_named_is_last(members: Seq<(String, Json)>, name: Seq<char>, j: int)
    requires
        last_named(members, name) < j < members.len(),
    ensures
        members[j].0@ != name,
    decreases members.len(),
{
    if j < members.len() - 1 {
        lemma_members_lookup(members, name);
        lemma_last_named_is_last(members.drop_last(), name, j);
        assert(members.drop_last()[j] == members[j]);
    } else {
        assert(members.last() == members[j]);
    }
}

/// Whether member `i` counts: no later member has its name.
pub fn counts(members: &Vec<(String, Json)>, i: usize) -> (r: bool)
    requires
        i < members.len(),
    ensures
        r == (last_named(members@, members[i as int].0@) == i),
{
    let mut j: usize = members.len();
    proof {
        assert(members@.take(j as int) =~= members@);
    }
    while j > i + 1
        invariant
            i < j <= members.len(),
            last_named(members@, members[i as int].0@) == last_named(
                members@.take(j as int),
                members[i as int].0@,
            ),
        decreases j,
    {
        proof {
            assert(members@.take(j as int).drop_last() =~= members@.take(j - 1));
        }
        j -= 1;
        if same_text(members[j].0.as_str(), members[i].0.as_str()) {
            return false;
        }
    }
    true
}

impl JsonValue {
    /// The member of an object under `name`; `None` for a value that is no
    /// object or has no such member.
    pub open spec fn field(self, name: Seq<char>) -> Option<JsonValue> {
        match self {
            JsonValue::Object(m) => if m.contains_key(name) {
                Some(m[name])
            } else {
                None
            },
            _ => None,
        }
    }
}

impl Clone for Json {
    fn clone(&self) -> (r: Json)
        ensures
            r@ == self@,
    {
        self.duplicate()
    }
}

/// Adds the member `name: value` to the members of an object under
/// construction.
pub fn put(members: &mut Vec<(String, Json)>, name: &str, value: Json)
    ensures
        members_view(final(members)@) == members_view(old(members)@).insert(name@, value@),
{
    let key = name.to_owned();
    proof {
        lemma_members_push(members@, (key, value));
    }
    members.push((key, value));
}

/// `serde_json::Value`, carried between the calls below and never looked
/// into.
#[verifier::external_type_specification]
#[verifier::external_body]
pub struct ExValue(serde_json::Value);

/// `serde_json::Error`, of which only its presence counts.
#[verifier::external_type_specification]
#[verifier::external_body]
pub struct ExError(serde_json::Error);

/// What a `serde_json::Value` holds, where every number in it is an
/// unsigned 64-bit integer; `None` where one is not.
pub uninterp spec fn value_content(v: serde_json::Value) -> Option<JsonValue>;

/// What a text means as JSON; `None` where it is no JSON text or holds a
/// number that is no unsigned 64-bit integer.
pub uninterp spec fn text_content(text: Seq<char>) -> Option<JsonValue>;

/// The text in which a JSON value is written out.
pub uninterp spec fn content_text(content: JsonValue) -> Seq<char>;

/// `serde_json::from_str` at `serde_json::Value`. Trusted: what it returns
/// depends on the text alone, so the content of a value that it returns is
/// the content named for the text, and a text that it refuses has none.
#[verifier::external_body]
fn value_from_text(text: &str) -> (r: Result<serde_json::Value, serde_json::Error>)
    ensures
        match r {
            Ok(v) => value_content(v) == text_content(text@),
            Err(_) => text_content(text@) is None,
        },
{
    serde_json::from_str::<serde_json::Value>(text)
}

/// Reads a `serde_json::Value` variant by variant, a number through
/// `serde_json::Number::as_u64`. Trusted: the result is the content of the
/// value, and there is none exactly where `as_u64` gives none for a number
/// in it.
#[verifier::external_body]
fn json_from_value(v: &serde_json::Value) -> (r: Option<Json>)
    ensures
        match r {
            Some(j) => value_content(*v) == Some(j@),
            None => value_content(*v) is None,
        },
{
    match v {
        serde_json::Value::Null => Some(Json::Null),
        serde_json::Value::Bool(b) => Some(Json::Bool(*b)),
        serde_json::Value::Number(n) => n.as_u64().map(Json::Number),
        serde_json::Value::String(s) => Some(Json::Str(s.clone())),
        serde_json::Value::Array(a) => a.iter().map(json_from_value).collect::<Option<_>>().map(Json::Array),
        serde_json::Value::Object(o) => o.iter().map(|(k, x)| Some((k.clone(), json_from_value(x)?))).collect::<Option<_>>().map(Json::Object),
    }
}

/// Builds a `serde_json::Value` variant by variant, a number through
/// `serde_json::Number::from`, an object through `serde_json::Map::insert`
/// member by member, which puts a later value in the place of an earlier
/// one of the same name. Trusted: the value holds what `j` means.
#[verifier::external_body]
fn value_from_json(j: &Json) -> (v: serde_json::Value)
    ensures
        value_content(v) == Some(j@),
{
    match j {
        Json::Null => serde_json::Value::Null,
        Json::Bool(b) => serde_json::Value::Bool(*b),
        Json::Number(n) => serde_json::Value::Number(serde_json::Number::from(*n)),
        Json::Str(s) => serde_json::Value::String(s.clone()),
        Json::Array(a) => serde_json::Value::Array(a.iter().map(value_from_json).collect()),
        Json::Object(m) => {
            let mut o = serde_json::Map::new();
            m.iter().for_each(|(k, x)| drop(o.insert(k.clone(), value_from_json(x))));
            serde_json::Value::Object(o)
        },
    }
}

/// `serde_json::to_string` on a `serde_json::Value`. Trusted: for a value
/// whose numbers are all unsigned 64-bit integers it returns a text, and
/// the text depends on the content of the value alone. `serde_json` names
/// two ways in which `to_string` fails: an impl of `Serialize` that fails
/// of itself, and a map whose keys are no strings. The impl for `Value`
/// only hands on what the serializer returns, and the keys of its maps are
/// `String`s; the serializer in turn fails only where a write fails, and
/// `to_string` writes to a `Vec<u8>`.
#[verifier::external_body]
fn text_from_value(v: &serde_json::Value) -> (r: Result<String, serde_json::Error>)
    ensures
        match value_content(*v) {
            Some(c) => match r {
                Ok(s) => s@ == content_text(c),
                Err(_) => false,
            },
            None => true,
        },
{
    serde_json::to_string(v)
}

/// Reads a JSON text. Gives `None` for a text that is no JSON or that holds
/// a number other than an unsigned 64-bit integer.
pub fn parse(text: &str) -> (r: Option<Json>)
    ensures
        match r {
            Some(j) => text_content(text@) == Some(j@),
            None => text_content(text@) is None,
        },
{
    match value_from_text(text) {
        Ok(v) => json_from_value(&v),
        Err(_) => None,
    }
}

/// Writes a JSON value out as text. Every value has a text, so the result
/// is never `None`.
pub fn render(j: &Json) -> (r: Option<String>)
    ensures
        match r {
            Some(s) => s@ == content_text(j@),
            None => false,
        },
{
    let v = value_from_json(j);
    match text_from_value(&v) {
        Ok(s) => Some(s),
        Err(_) => None,
    }
}

} // verus!

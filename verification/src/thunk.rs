//! Values that live in the key-value service and are fetched when first
//! needed.
//!
//! A thunk stands for one stored value. It knows the name under which the
//! value is stored, holds the value once it has been read, and remembers
//! whether the value was changed since. A changed value goes to a fresh
//! name: what is stored is never overwritten.
use crate::idgen::{chunk_id, IdGen};
use crate::json::{Json, JsonValue};
use crate::messages::{ExtraView, KvReadExtra, KvWriteExtra, MessageExtra};
use crate::storage::{
    decode_ids, decode_list, encode_ids, encode_list, ids_json, json_ids, json_list,
    lemma_ids_inverse, list_json,
};
use crate::table::Table;
use vstd::prelude::*;

verus! {

/// Something that is fetched when first needed.
#[derive(Debug)]
pub enum LazyValue<T> {
    /// Not asked for yet.
    UnLoaded,
    /// Asked for, not there yet.
    Loading,
    /// Asked for, and not to be had.
    LoadFailed,
    Loaded(T),
}

impl<T> Default for LazyValue<T> {
    fn default() -> (r: Self)
        ensures
            r is UnLoaded,
    {
        LazyValue::UnLoaded
    }
}

impl<T> LazyValue<T> {
    /// The value, if it is there.
    pub open spec fn loaded(self) -> Option<T> {
        match self {
            LazyValue::Loaded(v) => Some(v),
            _ => None,
        }
    }

    /// The value, if it is there.
    pub fn value(&self) -> (r: Option<&T>)
        ensures
            r == match self.loaded() {
                Some(v) => Some(&v),
                None => None,
            },
    {
        match self {
            LazyValue::Loaded(v) => Some(v),
            _ => None,
        }
    }

    /// The value, to be changed in place, if it is there.
    pub fn value_mut(&mut self) -> (r: Option<&mut T>)
        ensures
            match *old(self) {
                LazyValue::Loaded(v) => {
                    &&& r is Some
                    &&& *r.unwrap() == v
                    &&& *final(self) == LazyValue::Loaded(*final(r.unwrap()))
                },
                _ => r is None && *final(self) == *old(self),
            },
    {
        match self {
            LazyValue::Loaded(v) => Some(v),
            _ => None,
        }
    }

    /// Fetches with `f` what was not asked for yet, and gives the value if
    /// it is there then. What was asked for before stays as it is, and `f`
    /// is not called.
    pub fn get_or_insert_with<F>(&mut self, f: F) -> (r: Option<&T>) where
        F: FnOnce() -> LazyValue<T>,

        requires
            *old(self) is UnLoaded ==> f.requires(()),
        ensures
            *old(self) is UnLoaded ==> f.ensures((), *final(self)),
            !(*old(self) is UnLoaded) ==> *final(self) == *old(self),
            r == match final(self).loaded() {
                Some(v) => Some(&v),
                None => None,
            },
    {
        let fetch = match self {
            LazyValue::UnLoaded => true,
            _ => false,
        };
        if fetch {
            *self = f();
        }
        self.value()
    }
}

/// The text of a name that may be there.
pub open spec fn name_view(id: LazyValue<String>) -> LazyValue<Seq<char>> {
    match id {
        LazyValue::UnLoaded => LazyValue::UnLoaded,
        LazyValue::Loading => LazyValue::Loading,
        LazyValue::LoadFailed => LazyValue::LoadFailed,
        LazyValue::Loaded(s) => LazyValue::Loaded(s@),
    }
}

/// The name of a thunk of node `node` once it is asked for, and the count
/// of numbers given out after that: a thunk that had no name gets a fresh
/// one, if a number is left.
pub open spec fn named(id: LazyValue<Seq<char>>, node: Seq<char>, issued: nat) -> (
    LazyValue<Seq<char>>,
    nat,
) {
    if id is UnLoaded && issued < u64::MAX {
        (LazyValue::Loaded(chunk_id(node, issued + 1)), issued + 1)
    } else {
        (id, issued)
    }
}

/// What can be kept in the key-value service: it says how it is written
/// as JSON, and reads itself back from what it wrote.
pub trait Stored: Sized {
    /// The JSON that the value is written as.
    spec fn stored(&self) -> JsonValue;

    /// Whether a JSON value can be read as a value of this type.
    spec fn readable(j: JsonValue) -> bool;

    /// Writes the value as JSON.
    fn to_json(&self) -> (j: Json)
        ensures
            j@ == self.stored(),
    ;

    /// Reads a value from JSON: one that is written as just that JSON.
    fn from_json(j: &Json) -> (r: Option<Self>)
        ensures
            r is Some <==> Self::readable(j@),
            r matches Some(v) ==> v.stored() == j@,
    ;
}

impl Stored for Vec<u64> {
    open spec fn stored(&self) -> JsonValue {
        list_json(self@)
    }

    open spec fn readable(j: JsonValue) -> bool {
        json_list(j) is Some
    }

    fn to_json(&self) -> (j: Json) {
        encode_list(self)
    }

    fn from_json(j: &Json) -> (r: Option<Self>) {
        let r = decode_list(j);
        proof {
            if r is Some {
                let items = j@->Array_0;
                assert(r->Some_0@.map_values(|n: u64| JsonValue::Number(n)) =~= items);
            }
        }
        r
    }
}

impl Stored for Table<String> {
    open spec fn stored(&self) -> JsonValue {
        ids_json(self@)
    }

    open spec fn readable(j: JsonValue) -> bool {
        json_ids(j) is Some
    }

    fn to_json(&self) -> (j: Json) {
        encode_ids(self)
    }

    fn from_json(j: &Json) -> (r: Option<Self>) {
        let r = decode_ids(j);
        proof {
            if json_ids(j@) is Some {
                lemma_ids_inverse(j@);
            }
        }
        r
    }
}

/// A stored value: its name, the value once it is read, and whether it was
/// changed since.
#[derive(Debug)]
pub struct Thunk<T> {
    pub id: LazyValue<String>,
    pub value: LazyValue<T>,
    pub dirty: bool,
}

impl<T> Default for Thunk<T> {
    fn default() -> (r: Self)
        ensures
            r.id is UnLoaded,
            r.value is UnLoaded,
            !r.dirty,
    {
        Thunk { id: LazyValue::UnLoaded, value: LazyValue::UnLoaded, dirty: false }
    }
}

impl<T> Thunk<T> {
    /// A thunk with no name and no value.
    pub fn new() -> (r: Self)
        ensures
            r.id is UnLoaded,
            r.value is UnLoaded,
            !r.dirty,
    {
        Thunk { id: LazyValue::UnLoaded, value: LazyValue::UnLoaded, dirty: false }
    }

    /// The name of the thunk. A thunk that had none gets a fresh one of
    /// node `node_id` first, if a number is left.
    pub fn id(&mut self, node_id: &str, ids: &mut IdGen) -> (r: Option<String>)
        ensures
            (name_view(final(self).id), final(ids).issued()) == named(
                name_view(old(self).id),
                node_id@,
                old(ids).issued(),
            ),
            final(self).value == old(self).value,
            final(self).dirty == old(self).dirty,
            match r {
                Some(name) => name_view(final(self).id) == LazyValue::Loaded(name@),
                None => !(final(self).id is Loaded),
            },
    {
        let unnamed = match &self.id {
            LazyValue::UnLoaded => true,
            _ => false,
        };
        if unnamed {
            match ids.next_id(node_id) {
                Some(name) => {
                    self.id = LazyValue::Loaded(name);
                },
                None => {},
            }
        }
        match &self.id {
            LazyValue::Loaded(name) => Some(name.clone()),
            _ => None,
        }
    }

    /// Puts `value` in the place of the value. The first change since the
    /// thunk was read or saved gives it a fresh name.
    pub fn set_value(&mut self, value: T, node_id: &str, ids: &mut IdGen)
        ensures
            final(self).value == LazyValue::Loaded(value),
            final(self).dirty,
            (name_view(final(self).id), final(ids).issued()) == if old(self).dirty {
                (name_view(old(self).id), old(ids).issued())
            } else {
                named(LazyValue::UnLoaded, node_id@, old(ids).issued())
            },
    {
        if !self.dirty {
            self.id = LazyValue::UnLoaded;
            let _ = self.id(node_id, ids);
        }
        self.value = LazyValue::Loaded(value);
        self.dirty = true;
    }

    /// Whether the value was changed since it was read or saved.
    pub fn dirty(&self) -> (r: bool)
        ensures
            r == self.dirty,
    {
        self.dirty
    }

    /// Changes the value with `merge_fn`, which gives the new value and
    /// says whether it differs from the old one. A value that differs
    /// makes the thunk dirty and gives it a fresh name. Gives `false`, and
    /// changes nothing, where no value is there.
    pub fn merge<F>(&mut self, merge_fn: F, node_id: &str, ids: &mut IdGen) -> (r: bool) where
        F: FnOnce(T) -> (T, bool),

        requires
            old(self).value matches LazyValue::Loaded(v) ==> merge_fn.requires((v,)),
        ensures
            r == (old(self).value is Loaded),
            !r ==> *final(self) == *old(self) && final(ids).issued() == old(ids).issued(),
            r ==> exists|changed: bool| #[trigger]
                merge_fn.ensures(
                    (old(self).value->Loaded_0,),
                    (final(self).value->Loaded_0, changed),
                ) && final(self).value is Loaded && final(self).dirty == (old(self).dirty
                    || changed) && (name_view(final(self).id), final(ids).issued()) == if changed {
                    named(LazyValue::UnLoaded, node_id@, old(ids).issued())
                } else {
                    (name_view(old(self).id), old(ids).issued())
                },
    {
        let mut taken: LazyValue<T> = LazyValue::Loading;
        std::mem::swap(&mut self.value, &mut taken);
        match taken {
            LazyValue::Loaded(v) => {
                let (merged, changed) = merge_fn(v);
                self.value = LazyValue::Loaded(merged);
                if changed {
                    self.dirty = true;
                    self.id = LazyValue::UnLoaded;
                    let _ = self.id(node_id, ids);
                }
                proof {
                    assert(merge_fn.ensures((v,), (self.value->Loaded_0, changed)));
                }
                true
            },
            other => {
                self.value = other;
                false
            },
        }
    }
}

/// What a thunk does with the reply to the read of its value.
pub open spec fn load_outcome<T: Stored>(reply: ExtraView) -> bool {
    reply matches ExtraView::KvReadOk { value } && T::readable(value)
}

impl<T: Stored> Thunk<T> {
    /// The value, if it was read or set.
    pub fn value(&self) -> (r: Option<&T>)
        ensures
            r == match self.value.loaded() {
                Some(v) => Some(&v),
                None => None,
            },
    {
        self.value.value()
    }

    /// The request to read the value, for a thunk whose value was not
    /// asked for yet: the thunk is named first if it has no name, and waits
    /// for its value from then on. `None`, and nothing changes but the
    /// name, where the value was asked for before or no name is to be had.
    pub fn load_request(&mut self, node_id: &str, ids: &mut IdGen) -> (r: Option<MessageExtra>)
        ensures
            (name_view(final(self).id), final(ids).issued()) == named(
                name_view(old(self).id),
                node_id@,
                old(ids).issued(),
            ),
            final(self).dirty == old(self).dirty,
            match r {
                Some(request) => {
                    &&& old(self).value is UnLoaded
                    &&& final(self).value is Loading
                    &&& name_view(final(self).id) matches LazyValue::Loaded(name)
                    &&& request@ == (ExtraView::KvRead { key: JsonValue::Str(name) })
                },
                None => {
                    &&& final(self).value == old(self).value
                    &&& !(old(self).value is UnLoaded && final(self).id is Loaded)
                },
            },
    {
        let name = self.id(node_id, ids);
        let wanted = match &self.value {
            LazyValue::UnLoaded => true,
            _ => false,
        };
        match name {
            Some(name) => {
                if wanted {
                    self.value = LazyValue::Loading;
                    Some(MessageExtra::KvRead(KvReadExtra { key: Json::Str(name) }))
                } else {
                    None
                }
            },
            None => None,
        }
    }

    /// Takes the value from the reply to the read that `load_request` asked
    /// for. Any reply but a `read_ok` with a value of the right shape
    /// leaves the thunk without a value for good. A thunk that does not
    /// wait for its value stays as it is.
    pub fn load(&mut self, reply: &MessageExtra)
        ensures
            final(self).id == old(self).id,
            final(self).dirty == old(self).dirty,
            !(old(self).value is Loading) ==> final(self).value == old(self).value,
            old(self).value is Loading ==> {
                if load_outcome::<T>(reply@) {
                    final(self).value matches LazyValue::Loaded(v) && v.stored()
                        == reply@->KvReadOk_value
                } else {
                    final(self).value is LoadFailed
                }
            },
    {
        let waiting = match &self.value {
            LazyValue::Loading => true,
            _ => false,
        };
        if waiting {
            self.value = match reply {
                MessageExtra::KvReadOk(ok) => match T::from_json(&ok.value) {
                    Some(v) => LazyValue::Loaded(v),
                    None => LazyValue::LoadFailed,
                },
                _ => LazyValue::LoadFailed,
            };
        }
    }

    /// The value as JSON; `null` where no value is there.
    pub fn to_json(&self) -> (j: Json)
        ensures
            j@ == match self.value {
                LazyValue::Loaded(v) => v.stored(),
                _ => JsonValue::Null,
            },
    {
        match &self.value {
            LazyValue::Loaded(v) => v.to_json(),
            _ => Json::Null,
        }
    }

    /// Reads a value from JSON.
    pub fn from_json(json: &Json) -> (r: Option<T>)
        ensures
            r is Some <==> T::readable(json@),
            r matches Some(v) ==> v.stored() == json@,
    {
        T::from_json(json)
    }

    /// The request to write the value, for a thunk that is dirty and has a
    /// name; `None` for any other.
    pub fn save_request(&self) -> (r: Option<MessageExtra>)
        ensures
            match r {
                Some(request) => {
                    &&& self.dirty
                    &&& name_view(self.id) matches LazyValue::Loaded(name)
                    &&& request@ == (ExtraView::KvWrite {
                        key: JsonValue::Str(name),
                        value: match self.value {
                            LazyValue::Loaded(v) => v.stored(),
                            _ => JsonValue::Null,
                        },
                    })
                },
                None => !(self.dirty && self.id is Loaded),
            },
    {
        if !self.dirty {
            return None;
        }
        match &self.id {
            LazyValue::Loaded(name) => Some(
                MessageExtra::KvWrite(
                    KvWriteExtra { key: Json::Str(name.clone()), value: self.to_json() },
                ),
            ),
            _ => None,
        }
    }

    /// Takes the reply to the write that `save_request` asked for. On
    /// `write_ok` the thunk is clean again. Any other reply comes back as
    /// the error, and the thunk stays dirty. A thunk that is clean has
    /// nothing to save, and the reply does not count.
    pub fn save(&mut self, reply: MessageExtra) -> (r: Result<(), MessageExtra>)
        ensures
            final(self).id == old(self).id,
            final(self).value == old(self).value,
            match r {
                Ok(()) => !final(self).dirty && (old(self).dirty ==> reply is KvWriteOk),
                Err(e) => old(self).dirty && final(self).dirty && e == reply && !(reply
                    is KvWriteOk),
            },
    {
        if self.dirty {
            match reply {
                MessageExtra::KvWriteOk => {
                    self.dirty = false;
                    Ok(())
                },
                other => Err(other),
            }
        } else {
            Ok(())
        }
    }
}

} // verus!

//! Small maps keyed by number, kept as a list of entries in which a later
//! entry replaces an earlier one with the same key.
use vstd::prelude::*;

verus! {

/// A map from `u64` to `V`, as a list of entries.
#[derive(Clone, Debug)]
pub struct Table<V> {
    pub entries: Vec<(u64, V)>,
}

/// The map that a run of entries builds.
pub open spec fn entries_view<V: View>(entries: Seq<(u64, V)>) -> Map<u64, V::V>
    decreases entries.len(),
{
    if entries.len() == 0 {
        Map::empty()
    } else {
        entries_view(entries.drop_last()).insert(entries.last().0, entries.last().1@)
    }
}

/// Adding an entry to a run sets its key in the map.
pub proof fn lemma_entries_push<V: View>(entries: Seq<(u64, V)>, entry: (u64, V))
    ensures
        entries_view(entries.push(entry)) == entries_view(entries).insert(entry.0, entry.1@),
{
    assert(entries.push(entry).drop_last() =~= entries);
}

/// The place of the last entry with `key`, or -1 if there is none.
pub open spec fn last_index<V>(entries: Seq<(u64, V)>, key: u64) -> int
    decreases entries.len(),
{
    if entries.len() == 0 {
        -1
    } else if entries.last().0 == key {
        entries.len() - 1
    } else {
        last_index(entries.drop_last(), key)
    }
}

/// A key is in the map exactly if some entry has it, and it maps to the
/// value of the last entry that has it.
pub proof fn lemma_entries_lookup<V: View>(entries: Seq<(u64, V)>, key: u64)
    ensures
        -1 <= last_index(entries, key) < entries.len(),
        last_index(entries, key) >= 0 ==> {
            &&& entries[last_index(entries, key)].0 == key
            &&& entries_view(entries).contains_key(key)
            &&& entries_view(entries)[key] == entries[last_index(entries, key)].1@
        },
        last_index(entries, key) < 0 ==> !entries_view(entries).contains_key(key),
    decreases entries.len(),
{
    if entries.len() > 0 {
        lemma_entries_lookup(entries.drop_last(), key);
    }
}

proof fn lemma_entries_bound<V>(entries: Seq<(u64, V)>, key: u64)
    ensures
        -1 <= last_index(entries, key) < entries.len(),
    decreases entries.len(),
{
    if entries.len() > 0 {
        lemma_entries_bound(entries.drop_last(), key);
    }
}

/// No entry after the last one with `key` has it.
pub proof fn lemma_last_index_is_last<V>(entries: Seq<(u64, V)>, key: u64, j: int)
    requires
        last_index(entries, key) < j < entries.len(),
    ensures
        entries[j].0 != key,
    decreases entries.len(),
{
    if j < entries.len() - 1 {
        lemma_entries_bound(entries, key);
        lemma_last_index_is_last(entries.drop_last(), key, j);
        assert(entries.drop_last()[j] == entries[j]);
    } else {
        assert(entries.last() == entries[j]);
    }
}

/// Taking out one entry with `key` does not change what the map holds
/// under the other keys.
pub proof fn lemma_remove_entry<V: View>(entries: Seq<(u64, V)>, i: int, key: u64)
    requires
        0 <= i < entries.len(),
        entries[i].0 == key,
    ensures
        entries_view(entries.remove(i)).remove(key) == entries_view(entries).remove(key),
    decreases entries.len(),
{
    let head = entries.drop_last();
    if i == entries.len() - 1 {
        assert(entries.remove(i) =~= head);
        assert(entries_view(head).insert(key, entries.last().1@).remove(key) =~= entries_view(
            head,
        ).remove(key));
    } else {
        lemma_remove_entry(head, i, key);
        let rest = entries.remove(i);
        assert(rest.drop_last() =~= head.remove(i));
        assert(rest.last() == entries.last());
        let last = entries.last();
        assert(entries_view(rest) == entries_view(head.remove(i)).insert(last.0, last.1@));
        let a = entries_view(head.remove(i));
        let b = entries_view(head);
        assert forall|x: u64| a.remove(key).contains_key(x) == b.remove(key).contains_key(x) by {}
        assert forall|x: u64| x != key implies a.contains_key(x) == b.contains_key(x) by {
            assert(a.remove(key).contains_key(x) == b.remove(key).contains_key(x));
        }
        assert forall|x: u64| x != key && a.contains_key(x) implies a[x] == b[x] by {
            assert(a.remove(key)[x] == b.remove(key)[x]);
        }
        assert(a.insert(last.0, last.1@).remove(key) =~= b.insert(last.0, last.1@).remove(key));
    }
}

/// A map holds nothing under a key that no entry has.
pub proof fn lemma_no_entry<V: View>(entries: Seq<(u64, V)>, key: u64)
    requires
        forall|j: int| 0 <= j < entries.len() ==> (#[trigger] entries[j]).0 != key,
    ensures
        !entries_view(entries).contains_key(key),
    decreases entries.len(),
{
    if entries.len() > 0 {
        assert forall|j: int| 0 <= j < entries.drop_last().len() implies (
        #[trigger] entries.drop_last()[j]).0 != key by {
            assert(entries.drop_last()[j] == entries[j]);
        }
        lemma_no_entry(entries.drop_last(), key);
        assert(entries.last() == entries[entries.len() - 1]);
    }
}

impl<V: View> View for Table<V> {
    type V = Map<u64, V::V>;

    open spec fn view(&self) -> Map<u64, V::V> {
        entries_view(self.entries@)
    }
}

impl<V: View> Table<V> {
    /// The empty map.
    pub fn new() -> (r: Self)
        ensures
            r@ == Map::<u64, V::V>::empty(),
    {
        Table { entries: Vec::new() }
    }

    /// The value under `key`.
    pub fn get(&self, key: u64) -> (r: Option<&V>)
        ensures
            match r {
                Some(v) => self@.contains_key(key) && self@[key] == v@,
                None => !self@.contains_key(key),
            },
    {
        let mut i: usize = self.entries.len();
        proof {
            assert(self.entries@.take(i as int) =~= self.entries@);
        }
        while i > 0
            invariant
                0 <= i <= self.entries.len(),
                self@.contains_key(key) == entries_view(self.entries@.take(i as int)).contains_key(
                    key,
                ),
                self@.contains_key(key) ==> self@[key] == entries_view(
                    self.entries@.take(i as int),
                )[key],
            decreases i,
        {
            proof {
                let head = self.entries@.take(i as int);
                assert(head.drop_last() =~= self.entries@.take(i - 1));
                assert(head.last() == self.entries@[i - 1]);
                assert(entries_view(head) == entries_view(head.drop_last()).insert(
                    head.last().0,
                    head.last().1@,
                ));
            }
            i -= 1;
            if self.entries[i].0 == key {
                return Some(&self.entries[i].1);
            }
        }
        None
    }

    /// Whether `key` has a value.
    pub fn contains_key(&self, key: u64) -> (r: bool)
        ensures
            r == self@.contains_key(key),
    {
        self.get(key).is_some()
    }

    /// Takes away what is under `key`.
    pub fn remove(&mut self, key: u64)
        ensures
            final(self)@ == old(self)@.remove(key),
    {
        let mut i: usize = self.entries.len();
        while i > 0
            invariant
                0 <= i <= self.entries.len(),
                entries_view(self.entries@).remove(key) == old(self)@.remove(key),
                forall|j: int| i <= j < self.entries.len() ==> (#[trigger] self.entries[j]).0 != key,
            decreases i,
        {
            i -= 1;
            if self.entries[i].0 == key {
                proof {
                    lemma_remove_entry(self.entries@, i as int, key);
                }
                self.entries.remove(i);
            }
        }
        proof {
            lemma_no_entry(self.entries@, key);
            assert(entries_view(self.entries@).remove(key) =~= entries_view(self.entries@));
        }
    }

    /// Sets the value under `key`.
    pub fn insert(&mut self, key: u64, value: V)
        ensures
            final(self)@ == old(self)@.insert(key, value@),
    {
        proof {
            lemma_entries_push(self.entries@, (key, value));
        }
        self.entries.push((key, value));
    }
}

impl Table<String> {
    /// A copy of this map.
    pub fn duplicate(&self) -> (r: Table<String>)
        ensures
            r@ == self@,
    {
        let mut entries: Vec<(u64, String)> = Vec::new();
        let mut i: usize = 0;
        while i < self.entries.len()
            invariant
                0 <= i <= self.entries.len(),
                entries_view(entries@) == entries_view(self.entries@.take(i as int)),
            decreases self.entries.len() - i,
        {
            let entry = (self.entries[i].0, self.entries[i].1.clone());
            proof {
                lemma_entries_push(entries@, entry);
                lemma_entries_push(self.entries@.take(i as int), self.entries@[i as int]);
                assert(self.entries@.take(i + 1) =~= self.entries@.take(i as int).push(
                    self.entries@[i as int],
                ));
            }
            entries.push(entry);
            i += 1;
        }
        proof {
            assert(self.entries@.take(self.entries.len() as int) =~= self.entries@);
        }
        Table { entries }
    }
}

impl Table<Vec<u64>> {
    /// A copy of this map.
    pub fn duplicate(&self) -> (r: Table<Vec<u64>>)
        ensures
            r@ == self@,
    {
        let mut entries: Vec<(u64, Vec<u64>)> = Vec::new();
        let mut i: usize = 0;
        while i < self.entries.len()
            invariant
                0 <= i <= self.entries.len(),
                entries_view(entries@) == entries_view(self.entries@.take(i as int)),
            decreases self.entries.len() - i,
        {
            let entry = (self.entries[i].0, self.entries[i].1.clone());
            proof {
                lemma_entries_push(entries@, entry);
                lemma_entries_push(self.entries@.take(i as int), self.entries@[i as int]);
                assert(self.entries@.take(i + 1) =~= self.entries@.take(i as int).push(
                    self.entries@[i as int],
                ));
            }
            entries.push(entry);
            i += 1;
        }
        proof {
            assert(self.entries@.take(self.entries.len() as int) =~= self.entries@);
        }
        Table { entries }
    }
}

} // verus!

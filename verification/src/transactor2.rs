//! Transactions over a partitioned root.
//!
//! The key-value service holds three kinds of values. A chunk is the list
//! of one key. A partition maps each key of one partition index to the name
//! of its chunk. The root, under the name `ROOT`, maps each partition index
//! to the name of its partition. Chunks and partitions are written once,
//! under fresh names; only the root changes, and only by compare-and-set.
//!
//! A transaction reads the root, the partitions of its keys and the chunks
//! of its keys, applies its operations to that snapshot, writes a new chunk
//! for every key it appended to and a new partition for every partition
//! index it touched, and then swaps the root it read for the new one. The
//! service is reached by messages, so a transaction is a machine: it hands
//! out one request at a time and is resumed with the reply.
use crate::idgen::{
    chunk_id, lemma_numbered_distinct, lemma_numbered_not_root, numbered, part_id, part_prefix,
    IdGen,
};
use crate::json::{Json, JsonValue};
use crate::messages::{
    copy_queries, queries_view, ErrorExtra, ErrorView, ExtraView, KvCasData, KvReadExtra,
    KvWriteExtra, MessageExtra, Query, QueryView,
};
use crate::snapshot::{answers, apply, first_fault, list_of, op_append, state_after, Fatal};
use crate::storage::{
    decode_ids, decode_list, encode_ids, encode_list, ids_json, json_ids, json_list, list_json,
};
use crate::table::Table;
use crate::text::same_text;
use vstd::prelude::*;
use vstd::string::*;

verus! {

/// How many keys share a partition.
pub const PARTITION_WIDTH: u64 = 20;

/// The error code with which the service says that a key does not exist.
pub const KEY_DOES_NOT_EXIST: u64 = 20;

/// The error code with which the service says that a compare-and-set found
/// another value than the expected one.
pub const PRECONDITION_FAILED: u64 = 22;

/// The partition index of a key.
pub open spec fn part_of(key: u64) -> u64 {
    key / PARTITION_WIDTH
}

/// The name under which the root is stored.
pub open spec fn root_name() -> Seq<char> {
    seq!['R', 'O', 'O', 'T']
}

/// The keys of a run of operations, each once, in the order in which they
/// first occur.
pub open spec fn keys_of(ops: Seq<QueryView>) -> Seq<u64>
    decreases ops.len(),
{
    if ops.len() == 0 {
        Seq::empty()
    } else {
        let head = keys_of(ops.drop_last());
        if head.contains(ops.last().key) {
            head
        } else {
            head.push(ops.last().key)
        }
    }
}

/// The keys that a run of operations appends to, each once, in the order in
/// which they are first appended to.
pub open spec fn written_keys(ops: Seq<QueryView>) -> Seq<u64>
    decreases ops.len(),
{
    if ops.len() == 0 {
        Seq::empty()
    } else {
        let head = written_keys(ops.drop_last());
        if ops.last().op == op_append() && !head.contains(ops.last().key) {
            head.push(ops.last().key)
        } else {
            head
        }
    }
}

/// No key occurs twice among the keys of a run of operations.
pub proof fn lemma_keys_distinct(ops: Seq<QueryView>)
    ensures
        keys_of(ops).no_duplicates(),
    decreases ops.len(),
{
    if ops.len() > 0 {
        lemma_keys_distinct(ops.drop_last());
    }
}

/// No key occurs twice among the keys that a run of operations appends to.
pub proof fn lemma_written_distinct(ops: Seq<QueryView>)
    ensures
        written_keys(ops).no_duplicates(),
    decreases ops.len(),
{
    if ops.len() > 0 {
        lemma_written_distinct(ops.drop_last());
    }
}

/// Whether `x` occurs in `v`.
pub fn holds(v: &Vec<u64>, x: u64) -> (r: bool)
    ensures
        r == v@.contains(x),
{
    let mut i: usize = 0;
    while i < v.len()
        invariant
            0 <= i <= v.len(),
            forall|j: int| 0 <= j < i ==> v[j] != x,
        decreases v.len() - i,
    {
        if v[i] == x {
            return true;
        }
        i += 1;
    }
    false
}

/// The keys of the operations, each once.
pub fn collect_keys(ops: &Vec<Query>) -> (r: Vec<u64>)
    ensures
        r@ == keys_of(queries_view(ops@)),
{
    let ghost qs = queries_view(ops@);
    let mut keys: Vec<u64> = Vec::new();
    let mut i: usize = 0;
    while i < ops.len()
        invariant
            0 <= i <= ops.len(),
            qs == queries_view(ops@),
            keys@ == keys_of(qs.take(i as int)),
        decreases ops.len() - i,
    {
        proof {
            assert(qs.take(i + 1).drop_last() =~= qs.take(i as int));
        }
        if !holds(&keys, ops[i].1) {
            keys.push(ops[i].1);
        }
        i += 1;
    }
    proof {
        assert(qs.take(i as int) =~= qs);
    }
    keys
}

/// The keys that the operations append to, each once.
pub fn collect_written(ops: &Vec<Query>) -> (r: Vec<u64>)
    ensures
        r@ == written_keys(queries_view(ops@)),
{
    let ghost qs = queries_view(ops@);
    let mut keys: Vec<u64> = Vec::new();
    let mut i: usize = 0;
    proof {
        reveal_strlit("append");
        assert("append"@ =~= op_append());
    }
    while i < ops.len()
        invariant
            0 <= i <= ops.len(),
            qs == queries_view(ops@),
            "append"@ == op_append(),
            keys@ == written_keys(qs.take(i as int)),
        decreases ops.len() - i,
    {
        proof {
            assert(qs.take(i + 1).drop_last() =~= qs.take(i as int));
        }
        if same_text(ops[i].0.as_str(), "append") && !holds(&keys, ops[i].1) {
            keys.push(ops[i].1);
        }
        i += 1;
    }
    proof {
        assert(qs.take(i as int) =~= qs);
    }
    keys
}

/// What the reply to a read says: the value, or that the key does not
/// exist. Any other reply breaks the protocol.
pub open spec fn read_reply(reply: ExtraView) -> Result<Option<JsonValue>, Fatal> {
    match reply {
        ExtraView::KvReadOk { value } => Ok(Some(value)),
        ExtraView::Error { code, text } => if code == KEY_DOES_NOT_EXIST {
            Ok(None)
        } else {
            Err(Fatal::UnexpectedReply)
        },
        _ => Err(Fatal::UnexpectedReply),
    }
}

/// The map of names that the reply to a read holds; the empty map for a key
/// that does not exist.
pub open spec fn ids_reply(reply: ExtraView) -> Result<Map<u64, Seq<char>>, Fatal> {
    match read_reply(reply) {
        Ok(Some(value)) => match json_ids(value) {
            Some(ids) => Ok(ids),
            None => Err(Fatal::BadValue),
        },
        Ok(None) => Ok(Map::empty()),
        Err(f) => Err(f),
    }
}

/// The list that the reply to a read holds; the empty list for a key that
/// does not exist.
pub open spec fn list_reply(reply: ExtraView) -> Result<Seq<u64>, Fatal> {
    match read_reply(reply) {
        Ok(Some(value)) => match json_list(value) {
            Some(list) => Ok(list),
            None => Err(Fatal::BadValue),
        },
        Ok(None) => Ok(Seq::empty()),
        Err(f) => Err(f),
    }
}

/// Reads the reply to a read.
pub fn kv_read(reply: &MessageExtra) -> (r: Result<Option<&Json>, Fatal>)
    ensures
        match r {
            Ok(Some(value)) => read_reply(reply@) == Ok::<_, Fatal>(Some(value@)),
            Ok(None) => read_reply(reply@) == Ok::<Option<JsonValue>, Fatal>(None),
            Err(f) => read_reply(reply@) == Err::<Option<JsonValue>, _>(f),
        },
{
    match reply {
        MessageExtra::KvReadOk(ok) => Ok(Some(&ok.value)),
        MessageExtra::Error(err) => {
            if err.code == KEY_DOES_NOT_EXIST {
                Ok(None)
            } else {
                Err(Fatal::UnexpectedReply)
            }
        },
        _ => Err(Fatal::UnexpectedReply),
    }
}

/// Reads a map of names from the reply to a read.
pub fn ids_from_reply(reply: &MessageExtra) -> (r: Result<Table<String>, Fatal>)
    ensures
        match r {
            Ok(ids) => ids_reply(reply@) == Ok::<_, Fatal>(ids@),
            Err(f) => ids_reply(reply@) == Err::<Map<u64, Seq<char>>, _>(f),
        },
{
    match kv_read(reply) {
        Ok(Some(value)) => match decode_ids(value) {
            Some(ids) => Ok(ids),
            None => Err(Fatal::BadValue),
        },
        Ok(None) => Ok(Table::new()),
        Err(f) => Err(f),
    }
}

/// Reads a list from the reply to a read.
pub fn list_from_reply(reply: &MessageExtra) -> (r: Result<Vec<u64>, Fatal>)
    ensures
        match r {
            Ok(list) => list_reply(reply@) == Ok::<_, Fatal>(list@),
            Err(f) => list_reply(reply@) == Err::<Seq<u64>, _>(f),
        },
{
    match kv_read(reply) {
        Ok(Some(value)) => match decode_list(value) {
            Some(list) => Ok(list),
            None => Err(Fatal::BadValue),
        },
        Ok(None) => Ok(Vec::new()),
        Err(f) => Err(f),
    }
}

/// The place at which `x` first occurs in `s`; the length of `s` if it
/// does not occur.
pub open spec fn position(s: Seq<u64>, x: u64) -> int
    decreases s.len(),
{
    if s.len() == 0 {
        0
    } else if position(s.drop_last(), x) < s.len() - 1 {
        position(s.drop_last(), x)
    } else if s.last() == x {
        s.len() - 1
    } else {
        s.len() as int
    }
}

/// `position` finds what occurs, and nothing else.
pub proof fn lemma_position(s: Seq<u64>, x: u64)
    ensures
        0 <= position(s, x) <= s.len(),
        position(s, x) < s.len() <==> s.contains(x),
        position(s, x) < s.len() ==> s[position(s, x)] == x,
    decreases s.len(),
{
    if s.len() > 0 {
        lemma_position(s.drop_last(), x);
        let head = s.drop_last();
        if head.contains(x) {
            let i = choose|i: int| 0 <= i < head.len() && head[i] == x;
            assert(s[i] == x);
        }
        if s.contains(x) && !head.contains(x) {
            let i = choose|i: int| 0 <= i < s.len() && s[i] == x;
            if i < head.len() {
                assert(head[i] == x);
            }
        }
        if position(s, x) < s.len() {
            assert(s[position(s, x)] == x);
        }
    }
}

/// In a run without repetition each item stands at its own place.
pub proof fn lemma_position_distinct(s: Seq<u64>, i: int)
    requires
        s.no_duplicates(),
        0 <= i < s.len(),
    ensures
        position(s, s[i]) == i,
{
    lemma_position(s, s[i]);
}

/// The partition indices of a run of keys, each once, in the order in which
/// they first occur.
pub open spec fn touched_parts(keys: Seq<u64>) -> Seq<u64>
    decreases keys.len(),
{
    if keys.len() == 0 {
        Seq::empty()
    } else {
        let head = touched_parts(keys.drop_last());
        if head.contains(part_of(keys.last())) {
            head
        } else {
            head.push(part_of(keys.last()))
        }
    }
}

/// The partition indices of a run of keys are the indices of its keys, and
/// none occurs twice.
pub proof fn lemma_touched_parts(keys: Seq<u64>)
    ensures
        touched_parts(keys).no_duplicates(),
        touched_parts(keys).len() <= keys.len(),
        forall|i: int|
            0 <= i < keys.len() ==> touched_parts(keys).contains(part_of(#[trigger] keys[i])),
        forall|j: int|
            0 <= j < touched_parts(keys).len() ==> exists|i: int|
                0 <= i < keys.len() && part_of(#[trigger] keys[i]) == (#[trigger] touched_parts(
                    keys,
                )[j]),
    decreases keys.len(),
{
    if keys.len() > 0 {
        let head = keys.drop_last();
        lemma_touched_parts(head);
        let hp = touched_parts(head);
        let tp = touched_parts(keys);
        let last = part_of(keys.last());
        assert forall|i: int| 0 <= i < keys.len() implies tp.contains(
            part_of(#[trigger] keys[i]),
        ) by {
            if i < head.len() {
                assert(hp.contains(part_of(head[i])));
                let j = choose|j: int| 0 <= j < hp.len() && hp[j] == part_of(head[i]);
                assert(tp[j] == part_of(keys[i]));
            } else if hp.contains(last) {
            } else {
                assert(tp[tp.len() - 1] == last);
            }
        }
        assert forall|j: int| 0 <= j < tp.len() implies exists|i: int|
            0 <= i < keys.len() && part_of(#[trigger] keys[i]) == (#[trigger] tp[j]) by {
            if j < hp.len() {
                assert(tp[j] == hp[j]);
                let i = choose|i: int| 0 <= i < head.len() && part_of(#[trigger] head[i]) == hp[j];
                assert(part_of(keys[i]) == tp[j]);
            } else {
                assert(part_of(keys[keys.len() - 1]) == tp[j]);
            }
        }
    }
}

/// The partition index of each key, each once.
pub fn collect_parts(keys: &Vec<u64>) -> (r: Vec<u64>)
    ensures
        r@ == touched_parts(keys@),
{
    let mut parts: Vec<u64> = Vec::new();
    let mut i: usize = 0;
    while i < keys.len()
        invariant
            0 <= i <= keys.len(),
            parts@ == touched_parts(keys@.take(i as int)),
        decreases keys.len() - i,
    {
        proof {
            assert(keys@.take(i + 1).drop_last() =~= keys@.take(i as int));
        }
        let p = keys[i] / PARTITION_WIDTH;
        if !holds(&parts, p) {
            parts.push(p);
        }
        i += 1;
    }
    proof {
        assert(keys@.take(i as int) =~= keys@);
    }
    parts
}

/// What is to be written under which name.
pub open spec fn writes_view(writes: Seq<(String, Json)>) -> Seq<(Seq<char>, JsonValue)> {
    writes.map_values(|w: (String, Json)| (w.0@, w.1@))
}

/// The name of the new chunk of each key that is appended to: the keys get
/// the numbers that follow `c0`, in their order.
pub open spec fn saved_chunks(written: Seq<u64>, node: Seq<char>, c0: nat) -> Map<u64, Seq<char>> {
    Map::new(
        |k: u64| written.contains(k),
        |k: u64| chunk_id(node, (c0 + position(written, k) + 1) as nat),
    )
}

/// The writes of the new chunks: for each key that is appended to, its list
/// after the transaction under a fresh name.
pub open spec fn chunk_writes(
    written: Seq<u64>,
    state: Map<u64, Seq<u64>>,
    node: Seq<char>,
    c0: nat,
) -> Seq<(Seq<char>, JsonValue)> {
    Seq::new(
        written.len(),
        |i: int| (chunk_id(node, (c0 + i + 1) as nat), list_json(list_of(state, written[i]))),
    )
}

/// Gives every key that is appended to a fresh chunk name, and stages the
/// write of its list under that name. `None`, and no number is used, where
/// the numbers do not suffice.
pub fn stage_chunks(
    written: &Vec<u64>,
    state: &Table<Vec<u64>>,
    node_id: &str,
    ids: &mut IdGen,
) -> (r: Option<(Vec<(String, Json)>, Table<String>)>)
    requires
        written@.no_duplicates(),
    ensures
        match r {
            Some((writes, saved)) => {
                &&& final(ids).issued() == old(ids).issued() + written.len()
                &&& writes_view(writes@) == chunk_writes(
                    written@,
                    state@,
                    node_id@,
                    old(ids).issued(),
                )
                &&& saved@ == saved_chunks(written@, node_id@, old(ids).issued())
            },
            None => {
                &&& old(ids).issued() + written.len() > u64::MAX
                &&& final(ids).issued() == old(ids).issued()
            },
        },
{
    let ghost c0 = ids.issued();
    let ghost node = node_id@;
    if ids.remaining() < written.len() as u64 {
        return None;
    }
    let mut writes: Vec<(String, Json)> = Vec::new();
    let mut saved: Table<String> = Table::new();
    let mut i: usize = 0;
    proof {
        assert(saved@ =~= saved_chunks(written@.take(0), node, c0));
    }
    while i < written.len()
        invariant
            0 <= i <= written.len(),
            written@.no_duplicates(),
            node == node_id@,
            c0 + written.len() <= u64::MAX,
            ids.issued() == c0 + i,
            writes.len() == i,
            forall|j: int|
                0 <= j < i ==> (#[trigger] writes[j]).0@ == chunk_id(node, (c0 + j + 1) as nat)
                    && writes[j].1@ == list_json(list_of(state@, written[j])),
            saved@ =~= Map::new(
                |k: u64| written@.take(i as int).contains(k),
                |k: u64| chunk_id(node, (c0 + position(written@, k) + 1) as nat),
            ),
        decreases written.len() - i,
    {
        let key = written[i];
        let id = match ids.next_id(node_id) {
            Some(id) => id,
            None => {
                assert(false);
                return None;
            },
        };
        let value = match state.get(key) {
            Some(list) => encode_list(list),
            None => {
                let empty: Vec<u64> = Vec::new();
                encode_list(&empty)
            },
        };
        proof {
            lemma_position_distinct(written@, i as int);
            let before = written@.take(i as int);
            let after = written@.take(i + 1);
            assert(after =~= before.push(key));
            assert forall|k: u64| after.contains(k) <==> before.contains(k) || k == key by {
                if before.contains(k) {
                    let j = choose|j: int| 0 <= j < before.len() && before[j] == k;
                    assert(after[j] == k);
                }
                if k == key {
                    assert(after[i as int] == k);
                }
                if after.contains(k) {
                    let j = choose|j: int| 0 <= j < after.len() && after[j] == k;
                    if j < i {
                        assert(before[j] == k);
                    }
                }
            }
        }
        saved.insert(key, id.clone());
        writes.push((id, value));
        i += 1;
    }
    proof {
        assert(written@.take(i as int) =~= written@);
        assert(writes_view(writes@) =~= chunk_writes(written@, state@, node, c0));
    }
    Some((writes, saved))
}

/// A run with one more item holds what it held, and the item.
pub proof fn lemma_push_contains(s: Seq<u64>, x: u64)
    ensures
        forall|k: u64| s.push(x).contains(k) <==> s.contains(k) || k == x,
{
    let t = s.push(x);
    assert forall|k: u64| t.contains(k) <==> s.contains(k) || k == x by {
        if s.contains(k) {
            let j = choose|j: int| 0 <= j < s.len() && s[j] == k;
            assert(t[j] == k);
        }
        if k == x {
            assert(t[s.len() as int] == k);
        }
        if t.contains(k) {
            let j = choose|j: int| 0 <= j < t.len() && t[j] == k;
            if j < s.len() {
                assert(s[j] == k);
            }
        }
    }
}

/// The chunk name of `key` as the root and the partitions read so far give
/// it.
pub open spec fn chunk_of(
    root: Map<u64, Seq<char>>,
    parts: Map<u64, Map<u64, Seq<char>>>,
    key: u64,
) -> Option<Seq<char>> {
    let p = part_of(key);
    if root.contains_key(p) && parts.contains_key(p) && parts[p].contains_key(key) {
        Some(parts[p][key])
    } else {
        None
    }
}

/// The partition with index `p` as it was read; empty where none was.
pub open spec fn base_part(parts: Map<u64, Map<u64, Seq<char>>>, p: u64) -> Map<u64, Seq<char>> {
    if parts.contains_key(p) {
        parts[p]
    } else {
        Map::empty()
    }
}

/// The new partition with index `p`: the old one, with every key of that
/// index that was appended to now at its new chunk.
pub open spec fn new_part(
    base: Map<u64, Seq<char>>,
    written: Seq<u64>,
    saved: Map<u64, Seq<char>>,
    p: u64,
) -> Map<u64, Seq<char>> {
    Map::new(
        |k: u64| base.contains_key(k) || (written.contains(k) && part_of(k) == p),
        |k: u64|
            if written.contains(k) && part_of(k) == p {
                saved[k]
            } else {
                base[k]
            },
    )
}

/// The writes of the new partitions: one for each partition index that
/// holds a key that was appended to, under a fresh name. The indices get
/// the numbers that follow `c0`, in their order.
pub open spec fn part_writes(
    parts: Map<u64, Map<u64, Seq<char>>>,
    written: Seq<u64>,
    saved: Map<u64, Seq<char>>,
    node: Seq<char>,
    c0: nat,
) -> Seq<(Seq<char>, JsonValue)> {
    let tp = touched_parts(written);
    Seq::new(
        tp.len(),
        |m: int|
            (
                part_id(tp[m] as nat, node, (c0 + m + 1) as nat),
                ids_json(new_part(base_part(parts, tp[m]), written, saved, tp[m])),
            ),
    )
}

/// The new root: the old one, with every partition index that holds a key
/// that was appended to now at its new partition.
pub open spec fn new_root(
    root: Map<u64, Seq<char>>,
    written: Seq<u64>,
    node: Seq<char>,
    c0: nat,
) -> Map<u64, Seq<char>> {
    let tp = touched_parts(written);
    Map::new(
        |p: u64| root.contains_key(p) || tp.contains(p),
        |p: u64|
            if tp.contains(p) {
                part_id(p as nat, node, (c0 + position(tp, p) + 1) as nat)
            } else {
                root[p]
            },
    )
}

/// The root of the store as one transaction sees it: the map from
/// partition index to partition name that it read, and the partitions that
/// it has read since.
#[derive(Debug)]
pub struct Root {
    pub part_keys: Table<String>,
    pub parts: Table<Table<String>>,
}

/// Builds the new partition with index `p` from the old one.
fn build_part(
    base: Option<&Table<String>>,
    written: &Vec<u64>,
    saved: &Table<String>,
    p: u64,
) -> (r: Table<String>)
    requires
        forall|i: int| 0 <= i < written.len() ==> saved@.contains_key(#[trigger] written[i]),
    ensures
        r@ == new_part(
            match base {
                Some(b) => b@,
                None => Map::empty(),
            },
            written@,
            saved@,
            p,
        ),
{
    let mut part = match base {
        Some(b) => b.duplicate(),
        None => Table::new(),
    };
    let ghost old_part = part@;
    let mut j: usize = 0;
    proof {
        assert(part@ =~= new_part(old_part, written@.take(0), saved@, p));
    }
    while j < written.len()
        invariant
            0 <= j <= written.len(),
            forall|i: int| 0 <= i < written.len() ==> saved@.contains_key(#[trigger] written[i]),
            part@ =~= new_part(old_part, written@.take(j as int), saved@, p),
        decreases written.len() - j,
    {
        let key = written[j];
        proof {
            assert(written@.take(j + 1) =~= written@.take(j as int).push(key));
            lemma_push_contains(written@.take(j as int), key);
        }
        let ghost before = part@;
        if key / PARTITION_WIDTH == p {
            match saved.get(key) {
                Some(id) => {
                    part.insert(key, id.clone());
                },
                None => {
                    assert(false);
                },
            }
        }
        proof {
            let head = written@.take(j as int);
            let target = new_part(old_part, head.push(key), saved@, p);
            assert forall|k: u64| part@.contains_key(k) == target.contains_key(k) by {
                assert(head.push(key).contains(k) <==> head.contains(k) || k == key);
            }
            assert forall|k: u64| part@.contains_key(k) implies part@[k] == target[k] by {
                assert(head.push(key).contains(k) <==> head.contains(k) || k == key);
            }
            assert(part@ =~= target);
        }
        j += 1;
    }
    proof {
        assert(written@.take(j as int) =~= written@);
    }
    part
}

impl Root {
    /// The partition index of `key`.
    pub fn part_key(&self, key: u64) -> (r: u64)
        ensures
            r == part_of(key),
    {
        key / PARTITION_WIDTH
    }

    /// The root that the reply to the read of `ROOT` holds; the empty root
    /// where the service says that there is none yet.
    pub fn load(reply: &MessageExtra) -> (r: Result<Root, Fatal>)
        ensures
            match r {
                Ok(root) => {
                    &&& ids_reply(reply@) == Ok::<_, Fatal>(root.part_keys@)
                    &&& root.parts@ == Map::<u64, Map<u64, Seq<char>>>::empty()
                },
                Err(f) => ids_reply(reply@) == Err::<Map<u64, Seq<char>>, _>(f),
            },
    {
        match ids_from_reply(reply) {
            Ok(part_keys) => Ok(Root { part_keys, parts: Table::new() }),
            Err(f) => Err(f),
        }
    }

    /// Takes in the partition with index `index` from the reply to the read
    /// of its name; the empty partition where the service says that there
    /// is none. On a reply that breaks the protocol nothing changes.
    pub fn load_partition(&mut self, index: u64, reply: &MessageExtra) -> (r: Result<(), Fatal>)
        ensures
            final(self).part_keys == old(self).part_keys,
            match r {
                Ok(()) => {
                    &&& ids_reply(reply@) is Ok
                    &&& final(self).parts@ == old(self).parts@.insert(
                        index,
                        ids_reply(reply@)->Ok_0,
                    )
                },
                Err(f) => {
                    &&& ids_reply(reply@) == Err::<Map<u64, Seq<char>>, _>(f)
                    &&& final(self).parts == old(self).parts
                },
            },
    {
        match ids_from_reply(reply) {
            Ok(part) => {
                self.parts.insert(index, part);
                Ok(())
            },
            Err(f) => Err(f),
        }
    }

    /// The chunk name of `key`, as far as its partition has been read.
    pub fn get(&self, key: u64) -> (r: Option<&String>)
        ensures
            match r {
                Some(id) => chunk_of(self.part_keys@, self.parts@, key) == Some(id@),
                None => chunk_of(self.part_keys@, self.parts@, key) is None,
            },
    {
        let p = self.part_key(key);
        if !self.part_keys.contains_key(p) {
            return None;
        }
        match self.parts.get(p) {
            Some(part) => part.get(key),
            None => None,
        }
    }

    /// Whether `key` has a chunk, as far as its partition has been read.
    pub fn contains_key(&self, key: u64) -> (r: bool)
        ensures
            r == chunk_of(self.part_keys@, self.parts@, key) is Some,
    {
        self.get(key).is_some()
    }

    /// The request to store a partition under `key`.
    pub fn save_partition(key: &str, value: &Table<String>) -> (r: MessageExtra)
        ensures
            r@ == write_of((key@, ids_json(value@))),
    {
        MessageExtra::KvWrite(
            KvWriteExtra { key: Json::Str(String::from_str(key)), value: encode_ids(value) },
        )
    }

    /// A fresh name for the partition with index `partition_key`.
    pub fn next_part_id(&self, partition_key: u64, node_id: &str, ids: &mut IdGen) -> (r: Option<
        String,
    >)
        ensures
            match r {
                Some(id) => {
                    &&& final(ids).issued() == old(ids).issued() + 1
                    &&& id@ == part_id(partition_key as nat, node_id@, final(ids).issued())
                },
                None => old(ids).issued() == u64::MAX && final(ids).issued() == old(ids).issued(),
            },
    {
        ids.next_part_id(partition_key, node_id)
    }

    /// Stages what a commit has to write besides the chunks: for every
    /// partition index that holds a key of `written`, a new partition under
    /// a fresh name, in which those keys are at their chunks in `saved`;
    /// and the new root, in which those indices are at the new partitions.
    /// `None`, and no number is used, where the numbers do not suffice.
    pub fn save(&self, written: &Vec<u64>, saved: &Table<String>, node_id: &str, ids: &mut IdGen) -> (r:
        Option<(Vec<(String, Json)>, Table<String>)>)
        requires
            forall|i: int| 0 <= i < written.len() ==> saved@.contains_key(#[trigger] written[i]),
        ensures
            match r {
                Some((writes, root)) => {
                    &&& final(ids).issued() == old(ids).issued() + touched_parts(written@).len()
                    &&& writes_view(writes@) == part_writes(
                        self.parts@,
                        written@,
                        saved@,
                        node_id@,
                        old(ids).issued(),
                    )
                    &&& root@ == new_root(self.part_keys@, written@, node_id@, old(ids).issued())
                },
                None => {
                    &&& old(ids).issued() + touched_parts(written@).len() > u64::MAX
                    &&& final(ids).issued() == old(ids).issued()
                },
            },
    {
        let ghost c0 = ids.issued();
        let ghost node = node_id@;
        let touched = collect_parts(written);
        let ghost tp = touched@;
        proof {
            lemma_touched_parts(written@);
        }
        if ids.remaining() < touched.len() as u64 {
            return None;
        }
        let mut writes: Vec<(String, Json)> = Vec::new();
        let mut root = self.part_keys.duplicate();
        let mut m: usize = 0;
        proof {
            assert(root@ =~= Map::new(
                |p: u64| self.part_keys@.contains_key(p) || tp.take(0).contains(p),
                |p: u64|
                    if tp.take(0).contains(p) {
                        part_id(p as nat, node, (c0 + position(tp, p) + 1) as nat)
                    } else {
                        self.part_keys@[p]
                    },
            ));
        }
        while m < touched.len()
            invariant
                0 <= m <= touched.len(),
                tp == touched@,
                tp == touched_parts(written@),
                tp.no_duplicates(),
                node == node_id@,
                forall|i: int|
                    0 <= i < written.len() ==> saved@.contains_key(#[trigger] written[i]),
                c0 + touched.len() <= u64::MAX,
                ids.issued() == c0 + m,
                writes.len() == m,
                forall|j: int|
                    0 <= j < m ==> (#[trigger] writes[j]).0@ == part_id(
                        tp[j] as nat,
                        node,
                        (c0 + j + 1) as nat,
                    ) && writes[j].1@ == ids_json(
                        new_part(base_part(self.parts@, tp[j]), written@, saved@, tp[j]),
                    ),
                root@ =~= Map::new(
                    |p: u64| self.part_keys@.contains_key(p) || tp.take(m as int).contains(p),
                    |p: u64|
                        if tp.take(m as int).contains(p) {
                            part_id(p as nat, node, (c0 + position(tp, p) + 1) as nat)
                        } else {
                            self.part_keys@[p]
                        },
                ),
            decreases touched.len() - m,
        {
            let p = touched[m];
            let id = match self.next_part_id(p, node_id, ids) {
                Some(id) => id,
                None => {
                    assert(false);
                    return None;
                },
            };
            let part = build_part(self.parts.get(p), written, saved, p);
            let value = encode_ids(&part);
            proof {
                lemma_position_distinct(tp, m as int);
                assert(tp.take(m + 1) =~= tp.take(m as int).push(p));
                lemma_push_contains(tp.take(m as int), p);
            }
            root.insert(p, id.clone());
            writes.push((id, value));
            proof {
                let head = tp.take(m as int);
                let target = Map::new(
                    |q: u64| self.part_keys@.contains_key(q) || head.push(p).contains(q),
                    |q: u64|
                        if head.push(p).contains(q) {
                            part_id(q as nat, node, (c0 + position(tp, q) + 1) as nat)
                        } else {
                            self.part_keys@[q]
                        },
                );
                assert forall|q: u64| root@.contains_key(q) == target.contains_key(q) by {
                    assert(head.push(p).contains(q) <==> head.contains(q) || q == p);
                }
                assert forall|q: u64| root@.contains_key(q) implies root@[q] == target[q] by {
                    assert(head.push(p).contains(q) <==> head.contains(q) || q == p);
                }
                assert(root@ =~= target);
            }
            m += 1;
        }
        proof {
            assert(tp.take(m as int) =~= tp);
            assert(writes_view(writes@) =~= part_writes(self.parts@, written@, saved@, node, c0));
        }
        Some((writes, root))
    }
}

/// Where a transaction stands.
#[derive(Clone, Copy, Debug, PartialEq, Eq, Structural)]
pub enum Phase {
    /// Nothing has been asked of it yet.
    Idle,
    /// The read of the root is outstanding.
    LoadRoot,
    /// The read of a partition is outstanding.
    LoadPartitions,
    /// The read of a chunk is outstanding.
    LoadChunks,
    /// The write of a new chunk is outstanding.
    WriteChunks,
    /// The write of a new partition is outstanding.
    WritePartitions,
    /// The compare-and-set of the root is outstanding.
    CasRoot,
    /// Done: the client gets its answers.
    Committed,
    /// Done: the root had changed, the client gets the error.
    Aborted,
    /// Done: the protocol was broken.
    Failed,
}

/// What a transaction asks of whoever runs it.
#[derive(Debug)]
pub enum Action {
    /// Send this request to the key-value service and resume the
    /// transaction with the reply.
    Call(MessageExtra),
    /// The transaction is over: answer the client with `txn_ok` and these
    /// operations, or with this error.
    Reply(Result<Vec<Query>, ErrorExtra>),
    /// The transaction cannot go on, and neither can the node.
    Fail(Fatal),
}

pub enum ActionView {
    Call(ExtraView),
    Reply(Result<Seq<QueryView>, ErrorView>),
    Fail(Fatal),
}

impl View for Action {
    type V = ActionView;

    open spec fn view(&self) -> ActionView {
        match self {
            Action::Call(request) => ActionView::Call(request@),
            Action::Reply(Ok(txn)) => ActionView::Reply(Ok(queries_view(txn@))),
            Action::Reply(Err(e)) => ActionView::Reply(Err(e@)),
            Action::Fail(f) => ActionView::Fail(*f),
        }
    }
}

/// The state of a transaction.
#[verifier::ext_equal]
pub struct TxnView {
    /// The node that runs it.
    pub node: Seq<char>,
    pub phase: Phase,
    /// Its operations, as the client sent them.
    pub ops: Seq<QueryView>,
    /// The root as it was read.
    pub root: Map<u64, Seq<char>>,
    /// The partitions read so far, by index.
    pub parts: Map<u64, Map<u64, Seq<char>>>,
    /// The chunks read so far, by key: the snapshot.
    pub state: Map<u64, Seq<u64>>,
    /// What the current load phase reads: a partition index or a key, each
    /// with the name to read it from.
    pub queue: Seq<(u64, Seq<char>)>,
    /// How much of the queue, or of the writes, is behind it.
    pub cursor: nat,
    /// The answers for the client.
    pub results: Seq<QueryView>,
    /// How many numbers had been given out when the writes were staged.
    pub base: nat,
    /// What a commit writes: the new chunks, then the new partitions.
    pub writes: Seq<(Seq<char>, JsonValue)>,
    /// How many of the writes are chunks.
    pub chunks: nat,
    /// The root that a commit puts in the place of the one it read.
    pub new_root: Map<u64, Seq<char>>,
}

/// One step of a transaction: its next state, what it asks for, and how
/// many numbers have been given out after it.
#[verifier::ext_equal]
pub struct Step {
    pub txn: TxnView,
    pub action: ActionView,
    pub issued: nat,
}

/// The request to read what is stored under `name`.
pub open spec fn read_of(name: Seq<char>) -> ExtraView {
    ExtraView::KvRead { key: JsonValue::Str(name) }
}

/// The request to store a value under a name.
pub open spec fn write_of(write: (Seq<char>, JsonValue)) -> ExtraView {
    ExtraView::KvWrite { key: JsonValue::Str(write.0), value: write.1 }
}

/// The request to put one root in the place of another, or in the place of
/// none.
pub open spec fn cas_of(from: Map<u64, Seq<char>>, to: Map<u64, Seq<char>>) -> ExtraView {
    ExtraView::KvCas {
        key: JsonValue::Str(root_name()),
        from: ids_json(from),
        to: ids_json(to),
        create_if_not_exists: true,
    }
}

/// Whether the queue has an entry for `k`.
pub open spec fn queued(queue: Seq<(u64, Seq<char>)>, k: u64) -> bool {
    exists|i: int| 0 <= i < queue.len() && (#[trigger] queue[i]).0 == k
}

/// The partitions to read for a run of keys: for each partition index of a
/// key that the root has, once, the index with the name of the partition.
pub open spec fn parts_to_load(keys: Seq<u64>, root: Map<u64, Seq<char>>) -> Seq<
    (u64, Seq<char>),
>
    decreases keys.len(),
{
    if keys.len() == 0 {
        Seq::empty()
    } else {
        let head = parts_to_load(keys.drop_last(), root);
        let p = part_of(keys.last());
        if root.contains_key(p) && !queued(head, p) {
            head.push((p, root[p]))
        } else {
            head
        }
    }
}

/// The chunks to read for a run of keys: each key that has a chunk, with
/// the name of the chunk.
pub open spec fn chunks_to_load(
    keys: Seq<u64>,
    root: Map<u64, Seq<char>>,
    parts: Map<u64, Map<u64, Seq<char>>>,
) -> Seq<(u64, Seq<char>)>
    decreases keys.len(),
{
    if keys.len() == 0 {
        Seq::empty()
    } else {
        let head = chunks_to_load(keys.drop_last(), root, parts);
        match chunk_of(root, parts, keys.last()) {
            Some(id) => head.push((keys.last(), id)),
            None => head,
        }
    }
}

/// The transaction stops: the protocol was broken.
pub open spec fn fail(s: TxnView, f: Fatal, issued: nat) -> Step {
    Step { txn: TxnView { phase: Phase::Failed, ..s }, action: ActionView::Fail(f), issued }
}

/// A transaction of node `node` with operations `ops` sets out: it asks for
/// the root.
pub open spec fn begin(node: Seq<char>, ops: Seq<QueryView>) -> (TxnView, ActionView) {
    (
        TxnView {
            node,
            phase: Phase::LoadRoot,
            ops,
            root: Map::empty(),
            parts: Map::empty(),
            state: Map::empty(),
            queue: Seq::empty(),
            cursor: 0,
            results: Seq::empty(),
            base: 0,
            writes: Seq::empty(),
            chunks: 0,
            new_root: Map::empty(),
        },
        ActionView::Call(read_of(root_name())),
    )
}

/// The root is known: the partitions of the keys are read next, if the
/// root has any of them.
pub open spec fn enter_partitions(s: TxnView, issued: nat) -> Step {
    let queue = parts_to_load(keys_of(s.ops), s.root);
    if queue.len() > 0 {
        Step {
            txn: TxnView { phase: Phase::LoadPartitions, queue, cursor: 0, ..s },
            action: ActionView::Call(read_of(queue[0].1)),
            issued,
        }
    } else {
        enter_chunks(s, issued)
    }
}

/// The partitions are known: the chunks of the keys are read next, if any
/// key has one.
pub open spec fn enter_chunks(s: TxnView, issued: nat) -> Step {
    let queue = chunks_to_load(keys_of(s.ops), s.root, s.parts);
    if queue.len() > 0 {
        Step {
            txn: TxnView { phase: Phase::LoadChunks, queue, cursor: 0, ..s },
            action: ActionView::Call(read_of(queue[0].1)),
            issued,
        }
    } else {
        finish(TxnView { queue, cursor: 0, ..s }, issued)
    }
}

/// The snapshot is complete: the operations are applied to it. A
/// transaction that appends nothing is over with that. Any other stages
/// its writes, under the numbers that follow `issued`, and asks for the
/// first of them.
pub open spec fn finish(s: TxnView, issued: nat) -> Step {
    match first_fault(s.ops) {
        Some(f) => fail(s, f, issued),
        None => {
            let results = answers(s.ops, s.state);
            let written = written_keys(s.ops);
            let touched = touched_parts(written);
            if written.len() == 0 {
                Step {
                    txn: TxnView { phase: Phase::Committed, results, ..s },
                    action: ActionView::Reply(Ok(results)),
                    issued,
                }
            } else if issued + written.len() + touched.len() > u64::MAX {
                fail(s, Fatal::Exhausted, issued)
            } else {
                let after = state_after(s.ops, s.state);
                let saved = saved_chunks(written, s.node, issued);
                let writes = chunk_writes(written, after, s.node, issued) + part_writes(
                    s.parts,
                    written,
                    saved,
                    s.node,
                    issued + written.len(),
                );
                Step {
                    txn: TxnView {
                        phase: Phase::WriteChunks,
                        cursor: 0,
                        results,
                        base: issued,
                        writes,
                        chunks: written.len(),
                        new_root: new_root(s.root, written, s.node, issued + written.len()),
                        ..s
                    },
                    action: ActionView::Call(write_of(writes[0])),
                    issued: issued + written.len() + touched.len(),
                }
            }
        },
    }
}

/// One more item of the queue is read: the next one is asked for, or the
/// load phase is over.
pub open spec fn advance_load(s: TxnView, issued: nat) -> Step {
    let cursor = s.cursor + 1;
    if cursor < s.queue.len() {
        Step {
            txn: TxnView { cursor, ..s },
            action: ActionView::Call(read_of(s.queue[cursor as int].1)),
            issued,
        }
    } else if s.phase == Phase::LoadPartitions {
        enter_chunks(TxnView { cursor, ..s }, issued)
    } else {
        finish(TxnView { cursor: 0, ..s }, issued)
    }
}

/// What a transaction in state `s` does with a reply, when `issued`
/// numbers have been given out.
pub open spec fn next(s: TxnView, reply: ExtraView, issued: nat) -> Step {
    match s.phase {
        Phase::LoadRoot => match ids_reply(reply) {
            Ok(root) => enter_partitions(TxnView { root, parts: Map::empty(), ..s }, issued),
            Err(f) => fail(s, f, issued),
        },
        Phase::LoadPartitions => if s.cursor < s.queue.len() {
            match ids_reply(reply) {
                Ok(part) => advance_load(
                    TxnView { parts: s.parts.insert(s.queue[s.cursor as int].0, part), ..s },
                    issued,
                ),
                Err(f) => fail(s, f, issued),
            }
        } else {
            fail(s, Fatal::UnexpectedReply, issued)
        },
        Phase::LoadChunks => if s.cursor < s.queue.len() {
            match list_reply(reply) {
                Ok(list) => advance_load(
                    TxnView { state: s.state.insert(s.queue[s.cursor as int].0, list), ..s },
                    issued,
                ),
                Err(f) => fail(s, f, issued),
            }
        } else {
            fail(s, Fatal::UnexpectedReply, issued)
        },
        Phase::WriteChunks | Phase::WritePartitions => if reply is KvWriteOk && s.cursor
            < s.writes.len() {
            let cursor = s.cursor + 1;
            if cursor < s.writes.len() {
                Step {
                    txn: TxnView {
                        phase: if cursor < s.chunks {
                            Phase::WriteChunks
                        } else {
                            Phase::WritePartitions
                        },
                        cursor,
                        ..s
                    },
                    action: ActionView::Call(write_of(s.writes[cursor as int])),
                    issued,
                }
            } else {
                Step {
                    txn: TxnView { phase: Phase::CasRoot, cursor, ..s },
                    action: ActionView::Call(cas_of(s.root, s.new_root)),
                    issued,
                }
            }
        } else {
            fail(s, Fatal::UnexpectedReply, issued)
        },
        Phase::CasRoot => match reply {
            ExtraView::KvCasOk => Step {
                txn: TxnView { phase: Phase::Committed, ..s },
                action: ActionView::Reply(Ok(s.results)),
                issued,
            },
            ExtraView::Error { code, text } => if code == PRECONDITION_FAILED {
                Step {
                    txn: TxnView { phase: Phase::Aborted, ..s },
                    action: ActionView::Reply(Err(ErrorView { code, text })),
                    issued,
                }
            } else {
                fail(s, Fatal::UnexpectedReply, issued)
            },
            _ => fail(s, Fatal::UnexpectedReply, issued),
        },
        _ => fail(s, Fatal::UnexpectedReply, issued),
    }
}

/// Whether the writes of `s` are staged: its operations are sound and
/// append to something, its answers are those of its operations against
/// its snapshot, and its writes and its new root are the ones that follow
/// from what it read and from its operations, under the numbers that
/// follow `s.base`.
pub open spec fn staged(s: TxnView) -> bool {
    let written = written_keys(s.ops);
    &&& first_fault(s.ops) is None
    &&& written.len() > 0
    &&& s.results == answers(s.ops, s.state)
    &&& s.chunks == written.len()
    &&& s.writes == chunk_writes(written, state_after(s.ops, s.state), s.node, s.base)
        + part_writes(
        s.parts,
        written,
        saved_chunks(written, s.node, s.base),
        s.node,
        s.base + written.len(),
    )
    &&& s.new_root == new_root(s.root, written, s.node, s.base + written.len())
}

/// What holds of a transaction at every step.
pub open spec fn inv(s: TxnView) -> bool {
    match s.phase {
        Phase::WriteChunks => staged(s) && s.cursor < s.chunks,
        Phase::WritePartitions => staged(s) && s.chunks <= s.cursor < s.writes.len(),
        Phase::CasRoot | Phase::Aborted => staged(s) && s.cursor == s.writes.len(),
        Phase::Committed => {
            &&& first_fault(s.ops) is None
            &&& s.results == answers(s.ops, s.state)
            &&& written_keys(s.ops).len() > 0 ==> staged(s) && s.cursor == s.writes.len()
        },
        _ => true,
    }
}

/// A transaction that sets out is in order.
pub proof fn lemma_begin_inv(node: Seq<char>, ops: Seq<QueryView>)
    ensures
        inv(begin(node, ops).0),
{
}

/// A step keeps a transaction in order, and leaves its node and its
/// operations as they are.
pub proof fn lemma_next_inv(s: TxnView, reply: ExtraView, issued: nat)
    requires
        inv(s),
    ensures
        inv(next(s, reply, issued).txn),
        next(s, reply, issued).txn.node == s.node,
        next(s, reply, issued).txn.ops == s.ops,
        next(s, reply, issued).issued >= issued,
{
    let written = written_keys(s.ops);
    lemma_touched_parts(written);
    match s.phase {
        Phase::LoadRoot => {
            if ids_reply(reply) is Ok {
                let s1 = TxnView { root: ids_reply(reply)->Ok_0, parts: Map::empty(), ..s };
                lemma_loaded_inv(s1, issued);
            }
        },
        Phase::LoadPartitions => {
            if s.cursor < s.queue.len() && ids_reply(reply) is Ok {
                let s1 = TxnView {
                    parts: s.parts.insert(s.queue[s.cursor as int].0, ids_reply(reply)->Ok_0),
                    ..s
                };
                lemma_loaded_inv(TxnView { cursor: s.cursor + 1, ..s1 }, issued);
            }
        },
        Phase::LoadChunks => {
            if s.cursor < s.queue.len() && list_reply(reply) is Ok {
                let s1 = TxnView {
                    state: s.state.insert(s.queue[s.cursor as int].0, list_reply(reply)->Ok_0),
                    ..s
                };
                lemma_loaded_inv(TxnView { cursor: 0, ..s1 }, issued);
            }
        },
        _ => {},
    }
}

/// Whatever follows the loading of the root leaves the transaction in
/// order.
proof fn lemma_loaded_inv(s: TxnView, issued: nat)
    ensures
        inv(enter_partitions(s, issued).txn),
        inv(enter_chunks(s, issued).txn),
        inv(finish(s, issued).txn),
        enter_partitions(s, issued).txn.ops == s.ops,
        enter_chunks(s, issued).txn.ops == s.ops,
        finish(s, issued).txn.ops == s.ops,
        enter_partitions(s, issued).txn.node == s.node,
        enter_chunks(s, issued).txn.node == s.node,
        finish(s, issued).txn.node == s.node,
        enter_partitions(s, issued).issued >= issued,
        enter_chunks(s, issued).issued >= issued,
        finish(s, issued).issued >= issued,
{
    let written = written_keys(s.ops);
    lemma_touched_parts(written);
    let queue = chunks_to_load(keys_of(s.ops), s.root, s.parts);
    let s2 = TxnView { queue, cursor: 0, ..s };
    assert(written_keys(s2.ops) == written);
}

/// Snapshot isolation: the answers that a transaction hands to the client
/// are those of its operations, applied in order to the snapshot that it
/// read: the chunks as the root that it read first, and the partitions
/// under it, name them. A transaction that appended hands them out only on
/// the reply `cas_ok` to the compare-and-set that expects that same root.
pub proof fn lemma_reply_is_snapshot(s: TxnView, reply: ExtraView, issued: nat)
    requires
        inv(s),
        next(s, reply, issued).action matches ActionView::Reply(Ok(_)),
    ensures
        first_fault(s.ops) is None,
        next(s, reply, issued).action == ActionView::Reply(
            Ok(answers(s.ops, next(s, reply, issued).txn.state)),
        ),
        written_keys(s.ops).len() > 0 ==> {
            &&& s.phase == Phase::CasRoot
            &&& reply == ExtraView::KvCasOk
            &&& next(s, reply, issued).txn.state == s.state
        },
{
    lemma_next_inv(s, reply, issued);
}

/// Abort purity: a transaction hands an error to the client only when the
/// compare-and-set of the root was refused with code 22, and then it hands
/// on that very error; and after the compare-and-set was asked for, the
/// client gets its answers only on `cas_ok`.
pub proof fn lemma_abort_is_cas_failure(s: TxnView, reply: ExtraView, issued: nat)
    ensures
        next(s, reply, issued).action matches ActionView::Reply(Err(e)) ==> {
            &&& s.phase == Phase::CasRoot
            &&& e.code == PRECONDITION_FAILED
            &&& reply == (ExtraView::Error { code: e.code, text: e.text })
        },
        forall|text: Seq<char>|
            s.phase == Phase::CasRoot && reply == (ExtraView::Error {
                code: PRECONDITION_FAILED,
                text,
            }) ==> #[trigger] next(s, reply, issued).action == ActionView::Reply(
                Err(ErrorView { code: PRECONDITION_FAILED, text }),
            ),
        s.phase == Phase::CasRoot && (next(s, reply, issued).action matches ActionView::Reply(
            Ok(_),
        )) ==> reply == ExtraView::KvCasOk,
{
}

/// Commit atomicity: a transaction asks for the compare-and-set of the
/// root only on the `write_ok` for the last of its writes, each of which
/// was asked for only after the `write_ok` for the one before. The root
/// that it then puts forward names, for each partition index, either the
/// partition that the root it read named, or a partition among those
/// writes.
pub proof fn lemma_cas_after_writes(s: TxnView, reply: ExtraView, issued: nat)
    requires
        inv(s),
        next(s, reply, issued).action matches ActionView::Call(ExtraView::KvCas { .. }),
    ensures
        s.phase == Phase::WriteChunks || s.phase == Phase::WritePartitions,
        reply == ExtraView::KvWriteOk,
        s.cursor + 1 == s.writes.len(),
        next(s, reply, issued).action == ActionView::Call(cas_of(s.root, s.new_root)),
        forall|p: u64| #[trigger]
            s.new_root.contains_key(p) ==> (s.root.contains_key(p) && s.new_root[p] == s.root[p])
                || exists|i: int|
                s.chunks <= i < s.writes.len() && (#[trigger] s.writes[i]).0 == s.new_root[p],
{
    lemma_loaded_inv(s, issued);
    match s.phase {
        Phase::LoadRoot => {
            if ids_reply(reply) is Ok {
                lemma_loaded_calls(
                    TxnView { root: ids_reply(reply)->Ok_0, parts: Map::empty(), ..s },
                    issued,
                );
            }
        },
        Phase::LoadPartitions => {
            if s.cursor < s.queue.len() && ids_reply(reply) is Ok {
                let s1 = TxnView {
                    parts: s.parts.insert(s.queue[s.cursor as int].0, ids_reply(reply)->Ok_0),
                    ..s
                };
                lemma_loaded_calls(TxnView { cursor: s.cursor + 1, ..s1 }, issued);
            }
        },
        Phase::LoadChunks => {
            if s.cursor < s.queue.len() && list_reply(reply) is Ok {
                let s1 = TxnView {
                    state: s.state.insert(s.queue[s.cursor as int].0, list_reply(reply)->Ok_0),
                    ..s
                };
                lemma_loaded_calls(TxnView { cursor: 0, ..s1 }, issued);
            }
        },
        Phase::WriteChunks | Phase::WritePartitions => {
            lemma_new_root_written(s);
        },
        _ => {},
    }
}

/// Nothing that follows the loading of the root asks for a
/// compare-and-set.
proof fn lemma_loaded_calls(s: TxnView, issued: nat)
    ensures
        !(enter_partitions(s, issued).action matches ActionView::Call(ExtraView::KvCas { .. })),
        !(enter_chunks(s, issued).action matches ActionView::Call(ExtraView::KvCas { .. })),
        !(finish(s, issued).action matches ActionView::Call(ExtraView::KvCas { .. })),
{
}

/// The new root of a transaction whose writes are staged names, for each
/// partition index, the partition that the old root named or one of the
/// partitions staged.
pub proof fn lemma_new_root_written(s: TxnView)
    requires
        staged(s),
    ensures
        s.writes.len() == s.chunks + touched_parts(written_keys(s.ops)).len(),
        forall|p: u64| #[trigger]
            s.new_root.contains_key(p) ==> (s.root.contains_key(p) && s.new_root[p] == s.root[p])
                || exists|i: int|
                s.chunks <= i < s.writes.len() && (#[trigger] s.writes[i]).0 == s.new_root[p],
{
    let written = written_keys(s.ops);
    let tp = touched_parts(written);
    let c = s.base + written.len();
    lemma_touched_parts(written);
    assert forall|p: u64| #[trigger] s.new_root.contains_key(p) implies (s.root.contains_key(p)
        && s.new_root[p] == s.root[p]) || exists|i: int|
        s.chunks <= i < s.writes.len() && (#[trigger] s.writes[i]).0 == s.new_root[p] by {
        if tp.contains(p) {
            lemma_position(tp, p);
            let m = position(tp, p);
            assert(s.writes[s.chunks + m].0 == part_id(p as nat, s.node, (c + m + 1) as nat));
        }
    }
}

/// What stands before the number in the name of the `i`-th write of a
/// transaction: the node for a chunk, `part-index-node` for a partition.
pub open spec fn write_prefix(s: TxnView, i: int) -> Seq<char> {
    if i < s.chunks {
        s.node
    } else {
        part_prefix(touched_parts(written_keys(s.ops))[i - s.chunks] as nat, s.node)
    }
}

/// No mutation: the writes that a transaction stages go to names that end
/// in the numbers that follow `s.base`, one after the other. So no two of
/// them go to the same name, none goes to the root, and none goes to a
/// name that ends in a number given out before or after.
pub proof fn lemma_writes_fresh(s: TxnView)
    requires
        staged(s),
    ensures
        forall|i: int|
            0 <= i < s.writes.len() ==> (#[trigger] s.writes[i]).0 == numbered(
                write_prefix(s, i),
                (s.base + i + 1) as nat,
            ),
        forall|i: int, j: int|
            0 <= i < j < s.writes.len() ==> (#[trigger] s.writes[i]).0 != (#[trigger] s.writes[j]).0,
        forall|i: int| 0 <= i < s.writes.len() ==> (#[trigger] s.writes[i]).0 != root_name(),
{
    let written = written_keys(s.ops);
    let tp = touched_parts(written);
    lemma_touched_parts(written);
    assert forall|i: int| 0 <= i < s.writes.len() implies (#[trigger] s.writes[i]).0 == numbered(
        write_prefix(s, i),
        (s.base + i + 1) as nat,
    ) by {
        if i < written.len() {
            assert(s.writes[i].0 == numbered(s.node, (s.base + i + 1) as nat));
        } else {
            let m = i - written.len();
            assert(s.writes[i].0 == numbered(
                part_prefix(tp[m] as nat, s.node),
                (s.base + i + 1) as nat,
            ));
        }
    }
    assert forall|i: int, j: int| 0 <= i < j < s.writes.len() implies (#[trigger] s.writes[i]).0
        != (#[trigger] s.writes[j]).0 by {
        lemma_numbered_distinct(
            write_prefix(s, i),
            (s.base + i + 1) as nat,
            write_prefix(s, j),
            (s.base + j + 1) as nat,
        );
    }
    assert forall|i: int| 0 <= i < s.writes.len() implies (#[trigger] s.writes[i]).0
        != root_name() by {
        lemma_numbered_not_root(write_prefix(s, i), (s.base + i + 1) as nat);
    }
}

/// Two transactions of which one staged its writes when the numbers of the
/// other were all given out write to different names.
pub proof fn lemma_writes_fresh_across(a: TxnView, b: TxnView, i: int, j: int)
    requires
        staged(a),
        staged(b),
        a.base + a.writes.len() <= b.base,
        0 <= i < a.writes.len(),
        0 <= j < b.writes.len(),
    ensures
        a.writes[i].0 != b.writes[j].0,
{
    lemma_writes_fresh(a);
    lemma_writes_fresh(b);
    lemma_numbered_distinct(
        write_prefix(a, i),
        (a.base + i + 1) as nat,
        write_prefix(b, j),
        (b.base + j + 1) as nat,
    );
}

/// A transaction takes numbers only when it stages its writes: it takes
/// those that follow the count of numbers given out, one for each write.
/// No other step takes a number.
pub proof fn lemma_numbers_taken(s: TxnView, reply: ExtraView, issued: nat)
    requires
        inv(s),
    ensures
        next(s, reply, issued).issued != issued ==> {
            &&& next(s, reply, issued).txn.phase == Phase::WriteChunks
            &&& staged(next(s, reply, issued).txn)
            &&& next(s, reply, issued).txn.base == issued
            &&& next(s, reply, issued).issued == issued + next(s, reply, issued).txn.writes.len()
        },
{
    lemma_next_inv(s, reply, issued);
    let written = written_keys(s.ops);
    lemma_touched_parts(written);
    match s.phase {
        Phase::LoadRoot => {
            if ids_reply(reply) is Ok {
                lemma_loaded_numbers(
                    TxnView { root: ids_reply(reply)->Ok_0, parts: Map::empty(), ..s },
                    issued,
                );
            }
        },
        Phase::LoadPartitions => {
            if s.cursor < s.queue.len() && ids_reply(reply) is Ok {
                let s1 = TxnView {
                    parts: s.parts.insert(s.queue[s.cursor as int].0, ids_reply(reply)->Ok_0),
                    ..s
                };
                lemma_loaded_numbers(TxnView { cursor: s.cursor + 1, ..s1 }, issued);
            }
        },
        Phase::LoadChunks => {
            if s.cursor < s.queue.len() && list_reply(reply) is Ok {
                let s1 = TxnView {
                    state: s.state.insert(s.queue[s.cursor as int].0, list_reply(reply)->Ok_0),
                    ..s
                };
                lemma_loaded_numbers(TxnView { cursor: 0, ..s1 }, issued);
            }
        },
        _ => {},
    }
}

/// Whatever follows the loading of the root takes numbers only to stage
/// writes.
proof fn lemma_loaded_numbers(s: TxnView, issued: nat)
    ensures
        enter_partitions(s, issued).issued != issued ==> {
            &&& enter_partitions(s, issued).txn.phase == Phase::WriteChunks
            &&& enter_partitions(s, issued).txn.base == issued
            &&& enter_partitions(s, issued).issued == issued + enter_partitions(
                s,
                issued,
            ).txn.writes.len()
        },
        enter_chunks(s, issued).issued != issued ==> {
            &&& enter_chunks(s, issued).txn.phase == Phase::WriteChunks
            &&& enter_chunks(s, issued).txn.base == issued
            &&& enter_chunks(s, issued).issued == issued + enter_chunks(s, issued).txn.writes.len()
        },
        finish(s, issued).issued != issued ==> {
            &&& finish(s, issued).txn.phase == Phase::WriteChunks
            &&& finish(s, issued).txn.base == issued
            &&& finish(s, issued).issued == issued + finish(s, issued).txn.writes.len()
        },
{
    let written = written_keys(s.ops);
    lemma_touched_parts(written);
    let queue = chunks_to_load(keys_of(s.ops), s.root, s.parts);
    let s2 = TxnView { queue, cursor: 0, ..s };
    assert(written_keys(s2.ops) == written);
}

/// The view of a queue of things to read.
pub open spec fn queue_view(queue: Seq<(u64, String)>) -> Seq<(u64, Seq<char>)> {
    queue.map_values(|e: (u64, String)| (e.0, e.1@))
}

/// Whether the queue has an entry for `k`.
fn in_queue(queue: &Vec<(u64, String)>, k: u64) -> (r: bool)
    ensures
        r == queued(queue_view(queue@), k),
{
    let mut i: usize = 0;
    while i < queue.len()
        invariant
            0 <= i <= queue.len(),
            forall|j: int| 0 <= j < i ==> (#[trigger] queue_view(queue@)[j]).0 != k,
        decreases queue.len() - i,
    {
        if queue[i].0 == k {
            assert(queue_view(queue@)[i as int].0 == k);
            return true;
        }
        i += 1;
    }
    false
}

/// The partitions to read for `keys`.
fn queue_parts(keys: &Vec<u64>, root: &Table<String>) -> (r: Vec<(u64, String)>)
    ensures
        queue_view(r@) == parts_to_load(keys@, root@),
{
    let mut queue: Vec<(u64, String)> = Vec::new();
    let mut i: usize = 0;
    proof {
        assert(queue_view(queue@) =~= parts_to_load(keys@.take(0), root@));
    }
    while i < keys.len()
        invariant
            0 <= i <= keys.len(),
            queue_view(queue@) == parts_to_load(keys@.take(i as int), root@),
        decreases keys.len() - i,
    {
        proof {
            assert(keys@.take(i + 1).drop_last() =~= keys@.take(i as int));
        }
        let p = keys[i] / PARTITION_WIDTH;
        match root.get(p) {
            Some(name) => {
                if !in_queue(&queue, p) {
                    let entry = (p, name.clone());
                    proof {
                        assert(queue_view(queue@.push(entry)) =~= queue_view(queue@).push(
                            (p, name@),
                        ));
                    }
                    queue.push(entry);
                }
            },
            None => {},
        }
        i += 1;
    }
    proof {
        assert(keys@.take(i as int) =~= keys@);
    }
    queue
}

/// The chunks to read for `keys`.
fn queue_chunks(keys: &Vec<u64>, root: &Root) -> (r: Vec<(u64, String)>)
    ensures
        queue_view(r@) == chunks_to_load(keys@, root.part_keys@, root.parts@),
{
    let mut queue: Vec<(u64, String)> = Vec::new();
    let mut i: usize = 0;
    proof {
        assert(queue_view(queue@) =~= chunks_to_load(
            keys@.take(0),
            root.part_keys@,
            root.parts@,
        ));
    }
    while i < keys.len()
        invariant
            0 <= i <= keys.len(),
            queue_view(queue@) == chunks_to_load(
                keys@.take(i as int),
                root.part_keys@,
                root.parts@,
            ),
        decreases keys.len() - i,
    {
        proof {
            assert(keys@.take(i + 1).drop_last() =~= keys@.take(i as int));
        }
        match root.get(keys[i]) {
            Some(name) => {
                let entry = (keys[i], name.clone());
                proof {
                    assert(queue_view(queue@.push(entry)) =~= queue_view(queue@).push(
                        (keys[i as int], name@),
                    ));
                }
                queue.push(entry);
            },
            None => {},
        }
        i += 1;
    }
    proof {
        assert(keys@.take(i as int) =~= keys@);
    }
    queue
}

/// The request to read what is stored under `name`.
fn read_request(name: &String) -> (r: MessageExtra)
    ensures
        r@ == read_of(name@),
{
    MessageExtra::KvRead(KvReadExtra { key: Json::Str(name.clone()) })
}

/// The request to store a value under a name.
fn write_request(write: &(String, Json)) -> (r: MessageExtra)
    ensures
        r@ == write_of((write.0@, write.1@)),
{
    MessageExtra::KvWrite(
        KvWriteExtra { key: Json::Str(write.0.clone()), value: write.1.duplicate() },
    )
}

/// A transaction, from the operations of the client to its reply.
#[derive(Debug)]
pub struct Transactor {
    node_id: String,
    phase: Phase,
    ops: Vec<Query>,
    root: Root,
    state: Table<Vec<u64>>,
    queue: Vec<(u64, String)>,
    cursor: usize,
    results: Vec<Query>,
    base: u64,
    writes: Vec<(String, Json)>,
    chunks: usize,
    new_root: Table<String>,
}

impl View for Transactor {
    type V = TxnView;

    closed spec fn view(&self) -> TxnView {
        TxnView {
            node: self.node_id@,
            phase: self.phase,
            ops: queries_view(self.ops@),
            root: self.root.part_keys@,
            parts: self.root.parts@,
            state: self.state@,
            queue: queue_view(self.queue@),
            cursor: self.cursor as nat,
            results: queries_view(self.results@),
            base: self.base as nat,
            writes: writes_view(self.writes@),
            chunks: self.chunks as nat,
            new_root: self.new_root@,
        }
    }
}

impl Transactor {
    /// A transaction of node `node_id` that has not been given its
    /// operations yet.
    pub fn new(node_id: &str) -> (r: Transactor)
        ensures
            r@ == (TxnView { phase: Phase::Idle, ..begin(node_id@, Seq::empty()).0 }),
    {
        let r = Transactor {
            node_id: String::from_str(node_id),
            phase: Phase::Idle,
            ops: Vec::new(),
            root: Root { part_keys: Table::new(), parts: Table::new() },
            state: Table::new(),
            queue: Vec::new(),
            cursor: 0,
            results: Vec::new(),
            base: 0,
            writes: Vec::new(),
            chunks: 0,
            new_root: Table::new(),
        };
        proof {
            assert(queries_view(r.ops@) =~= Seq::empty());
            assert(queue_view(r.queue@) =~= Seq::empty());
            assert(writes_view(r.writes@) =~= Seq::empty());
        }
        r
    }

    /// Where the transaction stands.
    pub fn phase(&self) -> (r: Phase)
        ensures
            r == self@.phase,
    {
        self.phase
    }

    /// The list of a chunk from the reply to its read; the empty list
    /// where the service says that there is no such chunk.
    pub fn load_chunk(reply: &MessageExtra) -> (r: Result<Vec<u64>, Fatal>)
        ensures
            match r {
                Ok(list) => list_reply(reply@) == Ok::<_, Fatal>(list@),
                Err(f) => list_reply(reply@) == Err::<Seq<u64>, _>(f),
            },
    {
        list_from_reply(reply)
    }

    /// The request to store the list of a chunk under `chunk_id`.
    pub fn save_chunk(chunk_id: &str, values: &Vec<u64>) -> (r: MessageExtra)
        ensures
            r@ == write_of((chunk_id@, list_json(values@))),
    {
        MessageExtra::KvWrite(
            KvWriteExtra { key: Json::Str(String::from_str(chunk_id)), value: encode_list(values) },
        )
    }

    /// The next number for a name. `None`, and nothing changes, when the
    /// numbers have run out.
    pub fn next_id(&self, ids: &mut IdGen) -> (r: Option<u64>)
        ensures
            match r {
                Some(n) => n == old(ids).issued() + 1 && final(ids).issued() == n,
                None => old(ids).issued() == u64::MAX && final(ids).issued() == old(ids).issued(),
            },
    {
        ids.next_number()
    }

    /// A fresh chunk name of this node. `None`, and nothing changes, when
    /// the numbers have run out.
    pub fn new_thunk_id(&self, ids: &mut IdGen) -> (r: Option<String>)
        ensures
            match r {
                Some(id) => {
                    &&& final(ids).issued() == old(ids).issued() + 1
                    &&& id@ == chunk_id(self@.node, final(ids).issued())
                },
                None => old(ids).issued() == u64::MAX && final(ids).issued() == old(ids).issued(),
            },
    {
        ids.next_id(self.node_id.as_str())
    }

    /// The transaction stops: the protocol was broken.
    fn stop(&mut self, f: Fatal, ids: &IdGen) -> (r: Action)
        ensures
            (Step { txn: final(self)@, action: r@, issued: ids.issued() }) == fail(
                old(self)@,
                f,
                ids.issued(),
            ),
    {
        self.phase = Phase::Failed;
        Action::Fail(f)
    }

    /// The snapshot is complete: applies the operations, and stages the
    /// writes if there are any.
    fn finish(&mut self, ids: &mut IdGen) -> (r: Action)
        requires
            old(self).cursor == 0,
        ensures
            (Step { txn: final(self)@, action: r@, issued: final(ids).issued() }) == finish(
                old(self)@,
                old(ids).issued(),
            ),
    {
        let ghost s = self@;
        let ghost c0 = ids.issued();
        let mut after = self.state.duplicate();
        let results = match apply(&self.ops, &mut after) {
            Ok(results) => results,
            Err(f) => {
                return self.stop(f, ids);
            },
        };
        let written = collect_written(&self.ops);
        proof {
            lemma_written_distinct(s.ops);
        }
        if written.len() == 0 {
            self.phase = Phase::Committed;
            self.results = results;
            return Action::Reply(Ok(copy_queries(&self.results)));
        }
        let touched = collect_parts(&written);
        let left = ids.remaining();
        if left < written.len() as u64 || left - (written.len() as u64) < touched.len() as u64 {
            return self.stop(Fatal::Exhausted, ids);
        }
        let base = ids.count();
        let (mut writes, saved) = match stage_chunks(&written, &after, self.node_id.as_str(), ids) {
            Some(staged) => staged,
            None => {
                assert(false);
                return self.stop(Fatal::Exhausted, ids);
            },
        };
        proof {
            assert forall|i: int| 0 <= i < written.len() implies saved@.contains_key(
                #[trigger] written[i],
            ) by {
                assert(written@.contains(written[i]));
            }
        }
        let (mut part_writes, new_root) = match self.root.save(
            &written,
            &saved,
            self.node_id.as_str(),
            ids,
        ) {
            Some(staged) => staged,
            None => {
                assert(false);
                return self.stop(Fatal::Exhausted, ids);
            },
        };
        let ghost chunk_part = writes@;
        let ghost part_part = part_writes@;
        writes.append(&mut part_writes);
        proof {
            assert(writes@ =~= chunk_part + part_part);
            assert(writes_view(writes@) =~= writes_view(chunk_part) + writes_view(part_part));
        }
        self.phase = Phase::WriteChunks;
        self.cursor = 0;
        self.results = results;
        self.base = base;
        self.chunks = written.len();
        self.writes = writes;
        self.new_root = new_root;
        let request = write_request(&self.writes[0]);
        proof {
            assert(writes_view(self.writes@)[0] == (self.writes[0].0@, self.writes[0].1@));
            assert(self@ =~~= finish(s, c0).txn);
        }
        Action::Call(request)
    }

    /// The partitions are known: queues the chunks of the keys.
    fn enter_chunks(&mut self, ids: &mut IdGen) -> (r: Action)
        ensures
            (Step { txn: final(self)@, action: r@, issued: final(ids).issued() }) == enter_chunks(
                old(self)@,
                old(ids).issued(),
            ),
    {
        let ghost s = self@;
        let keys = collect_keys(&self.ops);
        let queue = queue_chunks(&keys, &self.root);
        if queue.len() > 0 {
            self.phase = Phase::LoadChunks;
            self.queue = queue;
            self.cursor = 0;
            let request = read_request(&self.queue[0].1);
            proof {
                assert(queue_view(self.queue@)[0] == (self.queue[0].0, self.queue[0].1@));
            }
            Action::Call(request)
        } else {
            self.queue = queue;
            self.cursor = 0;
            self.finish(ids)
        }
    }

    /// The root is known: queues the partitions of the keys.
    fn enter_partitions(&mut self, ids: &mut IdGen) -> (r: Action)
        ensures
            (Step { txn: final(self)@, action: r@, issued: final(ids).issued() })
                == enter_partitions(old(self)@, old(ids).issued()),
    {
        let keys = collect_keys(&self.ops);
        let queue = queue_parts(&keys, &self.root.part_keys);
        if queue.len() > 0 {
            self.phase = Phase::LoadPartitions;
            self.queue = queue;
            self.cursor = 0;
            let request = read_request(&self.queue[0].1);
            proof {
                assert(queue_view(self.queue@)[0] == (self.queue[0].0, self.queue[0].1@));
            }
            Action::Call(request)
        } else {
            self.enter_chunks(ids)
        }
    }

    /// One more item of the queue is read.
    fn advance_load(&mut self, ids: &mut IdGen) -> (r: Action)
        requires
            old(self).cursor < old(self).queue.len(),
        ensures
            (Step { txn: final(self)@, action: r@, issued: final(ids).issued() }) == advance_load(
                old(self)@,
                old(ids).issued(),
            ),
    {
        self.cursor = self.cursor + 1;
        if self.cursor < self.queue.len() {
            let request = read_request(&self.queue[self.cursor].1);
            proof {
                assert(queue_view(self.queue@)[self.cursor as int] == (
                    self.queue[self.cursor as int].0,
                    self.queue[self.cursor as int].1@,
                ));
            }
            Action::Call(request)
        } else {
            match self.phase {
                Phase::LoadPartitions => self.enter_chunks(ids),
                _ => {
                    self.cursor = 0;
                    self.finish(ids)
                },
            }
        }
    }

    /// Goes on with the reply to the request that the transaction asked
    /// for last. A reply that the request does not allow, or any reply to
    /// a transaction that asked for nothing, stops it.
    pub fn resume(&mut self, reply: &MessageExtra, ids: &mut IdGen) -> (r: Action)
        ensures
            (Step { txn: final(self)@, action: r@, issued: final(ids).issued() }) == next(
                old(self)@,
                reply@,
                old(ids).issued(),
            ),
    {
        match self.phase {
            Phase::LoadRoot => match Root::load(reply) {
                Ok(root) => {
                    self.root = root;
                    self.enter_partitions(ids)
                },
                Err(f) => self.stop(f, ids),
            },
            Phase::LoadPartitions => {
                if self.cursor < self.queue.len() {
                    let index = self.queue[self.cursor].0;
                    proof {
                        assert(queue_view(self.queue@)[self.cursor as int].0 == index);
                    }
                    match self.root.load_partition(index, reply) {
                        Ok(()) => self.advance_load(ids),
                        Err(f) => self.stop(f, ids),
                    }
                } else {
                    self.stop(Fatal::UnexpectedReply, ids)
                }
            },
            Phase::LoadChunks => {
                if self.cursor < self.queue.len() {
                    let key = self.queue[self.cursor].0;
                    proof {
                        assert(queue_view(self.queue@)[self.cursor as int].0 == key);
                    }
                    match Transactor::load_chunk(reply) {
                        Ok(list) => {
                            self.state.insert(key, list);
                            self.advance_load(ids)
                        },
                        Err(f) => self.stop(f, ids),
                    }
                } else {
                    self.stop(Fatal::UnexpectedReply, ids)
                }
            },
            Phase::WriteChunks | Phase::WritePartitions => {
                let acknowledged = match reply {
                    MessageExtra::KvWriteOk => true,
                    _ => false,
                };
                if acknowledged && self.cursor < self.writes.len() {
                    self.cursor = self.cursor + 1;
                    if self.cursor < self.writes.len() {
                        self.phase = if self.cursor < self.chunks {
                            Phase::WriteChunks
                        } else {
                            Phase::WritePartitions
                        };
                        let request = write_request(&self.writes[self.cursor]);
                        proof {
                            assert(writes_view(self.writes@)[self.cursor as int] == (
                                self.writes[self.cursor as int].0@,
                                self.writes[self.cursor as int].1@,
                            ));
                        }
                        Action::Call(request)
                    } else {
                        self.phase = Phase::CasRoot;
                        proof {
                            reveal_strlit("ROOT");
                            assert("ROOT"@ =~= root_name());
                        }
                        Action::Call(
                            MessageExtra::KvCas(
                                KvCasData {
                                    key: Json::Str(String::from_str("ROOT")),
                                    from: encode_ids(&self.root.part_keys),
                                    to: encode_ids(&self.new_root),
                                    create_if_not_exists: true,
                                },
                            ),
                        )
                    }
                } else {
                    self.stop(Fatal::UnexpectedReply, ids)
                }
            },
            Phase::CasRoot => match reply {
                MessageExtra::KvCasOk => {
                    self.phase = Phase::Committed;
                    Action::Reply(Ok(copy_queries(&self.results)))
                },
                MessageExtra::Error(e) => {
                    if e.code == PRECONDITION_FAILED {
                        self.phase = Phase::Aborted;
                        Action::Reply(Err(ErrorExtra { code: e.code, text: e.text.clone() }))
                    } else {
                        self.stop(Fatal::UnexpectedReply, ids)
                    }
                },
                _ => self.stop(Fatal::UnexpectedReply, ids),
            },
            _ => self.stop(Fatal::UnexpectedReply, ids),
        }
    }

    /// Sets out on the operations `txns`: takes them in and asks for the
    /// root. Whatever the transaction did before is forgotten.
    pub fn transact(&mut self, txns: &[Query]) -> (r: Action)
        ensures
            (final(self)@, r@) == begin(old(self)@.node, queries_view(txns@)),
    {
        let mut ops: Vec<Query> = Vec::new();
        let mut i: usize = 0;
        while i < txns.len()
            invariant
                0 <= i <= txns.len(),
                ops.len() == i,
                forall|j: int| 0 <= j < i ==> (#[trigger] ops[j])@ == txns[j]@,
            decreases txns.len() - i,
        {
            ops.push(txns[i].duplicate());
            i += 1;
        }
        self.phase = Phase::LoadRoot;
        self.ops = ops;
        self.root = Root { part_keys: Table::new(), parts: Table::new() };
        self.state = Table::new();
        self.queue = Vec::new();
        self.cursor = 0;
        self.results = Vec::new();
        self.base = 0;
        self.writes = Vec::new();
        self.chunks = 0;
        self.new_root = Table::new();
        proof {
            reveal_strlit("ROOT");
            assert("ROOT"@ =~= root_name());
            assert(queries_view(self.ops@) =~= queries_view(txns@));
            assert(queries_view(self.results@) =~= Seq::empty());
            assert(queue_view(self.queue@) =~= Seq::empty());
            assert(writes_view(self.writes@) =~= Seq::empty());
        }
        Action::Call(read_request(&String::from_str("ROOT")))
    }
}

} // verus!

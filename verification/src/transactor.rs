//! Transactions over a flat root.
//!
//! Here the key-value service holds, under the name `ROOT`, the name of one
//! record; the record maps every key to the name of its chunk. A
//! transaction reads the root, the record and the chunks of its keys,
//! applies its operations, writes a new chunk for every key it appended
//! to and a new record, and then swaps the name of the record it read for
//! the name of the new one. Every transaction that writes meets every
//! other one at the record: this is the partitioned design with one
//! partition for all keys.
use crate::idgen::{IdGen};
use crate::json::{Json, JsonValue};
use crate::messages::{
    copy_queries, queries_view, ErrorExtra, ErrorView, ExtraView, KvCasData, KvReadExtra,
    KvWriteExtra, MessageExtra, Query, QueryView,
};
use crate::snapshot::{answers, apply, first_fault, state_after, Fatal};
use crate::storage::{ids_json, json_ids, json_list};
use crate::table::{entries_view, lemma_entries_push, Table};
use crate::thunk::{name_view, named, LazyValue, Thunk};
use crate::transactor2::{
    chunk_writes, collect_keys, collect_written, keys_of, lemma_written_distinct, queue_view,
    read_of, read_reply, root_name, saved_chunks, stage_chunks, write_of, writes_view,
    written_keys, Action, ActionView, Phase, PRECONDITION_FAILED,
};
use vstd::prelude::*;
use vstd::string::*;

verus! {

/// The record of a database as a transaction holds it.
pub struct DbView {
    /// The name under which the record is stored.
    pub name: LazyValue<Seq<char>>,
    /// The record: each key with the name of its chunk.
    pub value: LazyValue<Map<u64, Seq<char>>>,
    /// Whether the record was changed since it was read.
    pub dirty: bool,
}

/// The database: the record that the root points to.
#[derive(Debug)]
pub struct Database {
    pub inner: Thunk<Table<String>>,
}

impl View for Database {
    type V = DbView;

    open spec fn view(&self) -> DbView {
        DbView {
            name: name_view(self.inner.id),
            value: match self.inner.value {
                LazyValue::UnLoaded => LazyValue::UnLoaded,
                LazyValue::Loading => LazyValue::Loading,
                LazyValue::LoadFailed => LazyValue::LoadFailed,
                LazyValue::Loaded(record) => LazyValue::Loaded(record@),
            },
            dirty: self.inner.dirty,
        }
    }
}

/// The database that the value of the root points to: a string is the name
/// of the record; with anything else there is no record to be had.
pub open spec fn db_of(pointer: JsonValue) -> DbView {
    match pointer {
        JsonValue::Str(name) => DbView {
            name: LazyValue::Loaded(name),
            value: LazyValue::UnLoaded,
            dirty: false,
        },
        _ => DbView { name: LazyValue::LoadFailed, value: LazyValue::LoadFailed, dirty: false },
    }
}

/// What the root holds for a database: the name of its record, or `null`.
pub open spec fn pointer_of(db: DbView) -> JsonValue {
    match db.name {
        LazyValue::Loaded(name) => JsonValue::Str(name),
        _ => JsonValue::Null,
    }
}

/// The record that a reply to its read holds, if the reply is a `read_ok`
/// with a map of names.
pub open spec fn record_reply(reply: ExtraView) -> LazyValue<Map<u64, Seq<char>>> {
    match reply {
        ExtraView::KvReadOk { value } => match json_ids(value) {
            Some(ids) => LazyValue::Loaded(ids),
            None => LazyValue::LoadFailed,
        },
        _ => LazyValue::LoadFailed,
    }
}

/// The database after the chunks in `saved` were merged into its record.
/// A record that is there takes them in and gets a fresh name. Where none
/// is there, they become the record, which gets a fresh name unless it was
/// changed before. With it goes the count of numbers given out.
pub open spec fn merged(db: DbView, saved: Map<u64, Seq<char>>, node: Seq<char>, issued: nat) -> (
    DbView,
    nat,
) {
    let fresh = named(LazyValue::UnLoaded, node, issued);
    match db.value {
        LazyValue::Loaded(record) => (
            DbView {
                name: fresh.0,
                value: LazyValue::Loaded(record.union_prefer_right(saved)),
                dirty: true,
            },
            fresh.1,
        ),
        _ => if db.dirty {
            (DbView { name: db.name, value: LazyValue::Loaded(saved), dirty: true }, issued)
        } else {
            (DbView { name: fresh.0, value: LazyValue::Loaded(saved), dirty: true }, fresh.1)
        },
    }
}

/// The write of the record of a database that was changed and has a name.
pub open spec fn record_write(db: DbView) -> Seq<(Seq<char>, JsonValue)> {
    match (db.name, db.value) {
        (LazyValue::Loaded(name), LazyValue::Loaded(record)) => if db.dirty {
            seq![(name, ids_json(record))]
        } else {
            Seq::empty()
        },
        (LazyValue::Loaded(name), _) => if db.dirty {
            seq![(name, JsonValue::Null)]
        } else {
            Seq::empty()
        },
        _ => Seq::empty(),
    }
}

/// Putting every entry of one map into another, the later ones last.
fn overlay(base: Table<String>, saved: &Table<String>) -> (r: (Table<String>, bool))
    ensures
        r.0@ == base@.union_prefer_right(saved@),
        r.1,
{
    let mut merged = base;
    let mut i: usize = 0;
    proof {
        assert(merged@ =~= base@.union_prefer_right(entries_view(saved.entries@.take(0))));
    }
    while i < saved.entries.len()
        invariant
            0 <= i <= saved.entries.len(),
            merged@ == base@.union_prefer_right(entries_view(saved.entries@.take(i as int))),
        decreases saved.entries.len() - i,
    {
        proof {
            let head = saved.entries@.take(i as int);
            assert(saved.entries@.take(i + 1) =~= head.push(saved.entries@[i as int]));
            lemma_entries_push(head, saved.entries@[i as int]);
            assert(base@.union_prefer_right(entries_view(head)).insert(
                saved.entries@[i as int].0,
                saved.entries@[i as int].1@,
            ) =~= base@.union_prefer_right(
                entries_view(head).insert(saved.entries@[i as int].0, saved.entries@[i as int].1@),
            ));
        }
        merged.insert(saved.entries[i].0, saved.entries[i].1.clone());
        i += 1;
    }
    proof {
        assert(saved.entries@.take(i as int) =~= saved.entries@);
    }
    (merged, true)
}

impl Database {
    /// The database that the value of the root points to.
    pub fn from_json_value(json: &Json) -> (r: Database)
        ensures
            r@ == db_of(json@),
    {
        match json.as_str() {
            Some(name) => Database {
                inner: Thunk {
                    id: LazyValue::Loaded(name.to_owned()),
                    value: LazyValue::UnLoaded,
                    dirty: false,
                },
            },
            None => Database {
                inner: Thunk {
                    id: LazyValue::LoadFailed,
                    value: LazyValue::LoadFailed,
                    dirty: false,
                },
            },
        }
    }

    /// What the root holds for this database.
    pub fn to_json_value(&self) -> (r: Json)
        ensures
            r@ == pointer_of(self@),
    {
        match &self.inner.id {
            LazyValue::Loaded(name) => Json::Str(name.clone()),
            _ => Json::Null,
        }
    }

    /// Applies the operations of a transaction to the chunks that were
    /// read, and gives the answers.
    pub fn transact(&self, txns: &Vec<Query>, state: &mut Table<Vec<u64>>) -> (r: Result<
        Vec<Query>,
        Fatal,
    >)
        ensures
            match r {
                Ok(results) => {
                    &&& first_fault(queries_view(txns@)) is None
                    &&& queries_view(results@) == answers(queries_view(txns@), old(state)@)
                    &&& final(state)@ == state_after(queries_view(txns@), old(state)@)
                },
                Err(f) => first_fault(queries_view(txns@)) == Some(f),
            },
    {
        apply(txns, state)
    }

    /// Merges the new chunks into the record.
    pub fn merge(&mut self, saved: &Table<String>, node_id: &str, ids: &mut IdGen)
        ensures
            (final(self)@, final(ids).issued()) == merged(
                old(self)@,
                saved@,
                node_id@,
                old(ids).issued(),
            ),
    {
        let there = self.inner.value.value().is_some();
        if there {
            let merge_fn = |record: Table<String>| -> (r: (Table<String>, bool))
                ensures
                    r.0@ == record@.union_prefer_right(saved@),
                    r.1,
                { overlay(record, saved) };
            let _ = self.inner.merge(merge_fn, node_id, ids);
        } else {
            self.inner.set_value(saved.duplicate(), node_id, ids);
        }
    }

    /// The request to write the record, if it was changed and has a name.
    pub fn save(&self) -> (r: Option<(String, Json)>)
        ensures
            match r {
                Some(write) => record_write(self@) == seq![(write.0@, write.1@)],
                None => record_write(self@) == Seq::<(Seq<char>, JsonValue)>::empty(),
            },
    {
        if !self.inner.dirty {
            return None;
        }
        match &self.inner.id {
            LazyValue::Loaded(name) => Some((name.clone(), self.inner.to_json())),
            _ => None,
        }
    }
}

/// The state of a transaction over a flat root.
#[verifier::ext_equal]
pub struct FlatView {
    pub node: Seq<char>,
    pub phase: Phase,
    pub ops: Seq<QueryView>,
    /// What the root held when it was read.
    pub old_id: JsonValue,
    pub db: DbView,
    /// The chunks read so far, by key: the snapshot.
    pub state: Map<u64, Seq<u64>>,
    /// The chunks to read: each key with the name of its chunk.
    pub queue: Seq<(u64, Seq<char>)>,
    /// How much of the queue, or of the writes, is behind it.
    pub cursor: nat,
    pub results: Seq<QueryView>,
    /// What a commit writes: the new chunks, then the new record.
    pub writes: Seq<(Seq<char>, JsonValue)>,
}

/// One step of a transaction: its next state, what it asks for, and how
/// many numbers have been given out after it.
#[verifier::ext_equal]
pub struct FlatStep {
    pub txn: FlatView,
    pub action: ActionView,
    pub issued: nat,
}

/// The transaction stops: the protocol was broken.
pub open spec fn flat_fail(s: FlatView, f: Fatal, issued: nat) -> FlatStep {
    FlatStep { txn: FlatView { phase: Phase::Failed, ..s }, action: ActionView::Fail(f), issued }
}

/// A transaction of node `node` with operations `ops` sets out: it asks for
/// the root.
pub open spec fn flat_begin(node: Seq<char>, ops: Seq<QueryView>) -> (FlatView, ActionView) {
    (
        FlatView {
            node,
            phase: Phase::LoadRoot,
            ops,
            old_id: JsonValue::Null,
            db: db_of(JsonValue::Null),
            state: Map::empty(),
            queue: Seq::empty(),
            cursor: 0,
            results: Seq::empty(),
            writes: Seq::empty(),
        },
        ActionView::Call(read_of(root_name())),
    )
}

/// The chunks to read for a run of keys: each key that the record has,
/// with the name of its chunk.
pub open spec fn record_chunks(keys: Seq<u64>, record: LazyValue<Map<u64, Seq<char>>>) -> Seq<
    (u64, Seq<char>),
>
    decreases keys.len(),
{
    if keys.len() == 0 {
        Seq::empty()
    } else {
        let head = record_chunks(keys.drop_last(), record);
        match record {
            LazyValue::Loaded(m) => if m.contains_key(keys.last()) {
                head.push((keys.last(), m[keys.last()]))
            } else {
                head
            },
            _ => head,
        }
    }
}

/// The request to put the name of one record in the place of another, or
/// in the place of none.
pub open spec fn flat_cas(from: JsonValue, to: JsonValue) -> ExtraView {
    ExtraView::KvCas { key: JsonValue::Str(root_name()), from, to, create_if_not_exists: true }
}

/// The record is known, or not to be had: the chunks of the keys are read
/// next, if the record has any of them.
pub open spec fn flat_enter_chunks(s: FlatView, issued: nat) -> FlatStep {
    let queue = record_chunks(keys_of(s.ops), s.db.value);
    if queue.len() > 0 {
        FlatStep {
            txn: FlatView { phase: Phase::LoadChunks, queue, cursor: 0, ..s },
            action: ActionView::Call(read_of(queue[0].1)),
            issued,
        }
    } else {
        flat_finish(FlatView { queue, cursor: 0, ..s }, issued)
    }
}

/// The snapshot is complete: the operations are applied to it. A
/// transaction that appends nothing is over with that. Any other stages
/// its new chunks and its new record, and asks for the first write.
pub open spec fn flat_finish(s: FlatView, issued: nat) -> FlatStep {
    match first_fault(s.ops) {
        Some(f) => flat_fail(s, f, issued),
        None => {
            let results = answers(s.ops, s.state);
            let written = written_keys(s.ops);
            if written.len() == 0 {
                FlatStep {
                    txn: FlatView { phase: Phase::Committed, results, ..s },
                    action: ActionView::Reply(Ok(results)),
                    issued,
                }
            } else if issued + written.len() + 1 > u64::MAX {
                flat_fail(s, Fatal::Exhausted, issued)
            } else {
                let after = state_after(s.ops, s.state);
                let saved = saved_chunks(written, s.node, issued);
                let db = merged(s.db, saved, s.node, issued + written.len());
                let writes = chunk_writes(written, after, s.node, issued) + record_write(db.0);
                FlatStep {
                    txn: FlatView {
                        phase: Phase::WriteChunks,
                        cursor: 0,
                        results,
                        db: db.0,
                        writes,
                        ..s
                    },
                    action: ActionView::Call(write_of(writes[0])),
                    issued: db.1,
                }
            }
        },
    }
}

/// What a transaction in state `s` does with a reply, when `issued`
/// numbers have been given out.
pub open spec fn flat_next(s: FlatView, reply: ExtraView, issued: nat) -> FlatStep {
    match s.phase {
        Phase::LoadRoot => match read_reply(reply) {
            Err(f) => flat_fail(s, f, issued),
            Ok(found) => {
                let pointer = match found {
                    Some(value) => value,
                    None => JsonValue::Null,
                };
                let db = db_of(pointer);
                let s1 = FlatView { old_id: pointer_of(db), db, ..s };
                match db.name {
                    LazyValue::Loaded(name) => FlatStep {
                        txn: FlatView {
                            phase: Phase::LoadPartitions,
                            db: DbView { value: LazyValue::Loading, ..db },
                            ..s1
                        },
                        action: ActionView::Call(read_of(name)),
                        issued,
                    },
                    _ => flat_enter_chunks(s1, issued),
                }
            },
        },
        Phase::LoadPartitions => flat_enter_chunks(
            FlatView {
                db: DbView {
                    value: if s.db.value is Loading {
                        record_reply(reply)
                    } else {
                        s.db.value
                    },
                    ..s.db
                },
                ..s
            },
            issued,
        ),
        Phase::LoadChunks => if s.cursor < s.queue.len() {
            let state = match reply {
                ExtraView::KvReadOk { value } => match json_list(value) {
                    Some(list) => s.state.insert(s.queue[s.cursor as int].0, list),
                    None => s.state,
                },
                _ => s.state,
            };
            let cursor = s.cursor + 1;
            if cursor < s.queue.len() {
                FlatStep {
                    txn: FlatView { state, cursor, ..s },
                    action: ActionView::Call(read_of(s.queue[cursor as int].1)),
                    issued,
                }
            } else {
                flat_finish(FlatView { state, cursor: 0, ..s }, issued)
            }
        } else {
            flat_fail(s, Fatal::UnexpectedReply, issued)
        },
        Phase::WriteChunks | Phase::WritePartitions => if reply is KvWriteOk && s.cursor
            < s.writes.len() {
            let cursor = s.cursor + 1;
            if cursor < s.writes.len() {
                FlatStep {
                    txn: FlatView {
                        phase: if cursor + 1 < s.writes.len() {
                            Phase::WriteChunks
                        } else {
                            Phase::WritePartitions
                        },
                        cursor,
                        ..s
                    },
                    action: ActionView::Call(write_of(s.writes[cursor as int])),
                    issued,
                }
            } else {
                FlatStep {
                    txn: FlatView {
                        phase: Phase::CasRoot,
                        cursor,
                        db: DbView { dirty: false, ..s.db },
                        ..s
                    },
                    action: ActionView::Call(flat_cas(s.old_id, pointer_of(s.db))),
                    issued,
                }
            }
        } else {
            flat_fail(s, Fatal::UnexpectedReply, issued)
        },
        Phase::CasRoot => match reply {
            ExtraView::KvCasOk => FlatStep {
                txn: FlatView { phase: Phase::Committed, ..s },
                action: ActionView::Reply(Ok(s.results)),
                issued,
            },
            ExtraView::Error { code, text } => if code == PRECONDITION_FAILED {
                FlatStep {
                    txn: FlatView { phase: Phase::Aborted, ..s },
                    action: ActionView::Reply(Err(ErrorView { code, text })),
                    issued,
                }
            } else {
                flat_fail(s, Fatal::UnexpectedReply, issued)
            },
            _ => flat_fail(s, Fatal::UnexpectedReply, issued),
        },
        _ => flat_fail(s, Fatal::UnexpectedReply, issued),
    }
}

/// A transaction hands an error to the client only when the
/// compare-and-set of the root was refused with code 22, and then it hands
/// on that very error; the compare-and-set is asked for only on the
/// `write_ok` for the last write, and expects what the root held when the
/// transaction read it.
pub proof fn lemma_flat_abort_and_commit(s: FlatView, reply: ExtraView, issued: nat)
    ensures
        flat_next(s, reply, issued).action matches ActionView::Reply(Err(e)) ==> {
            &&& s.phase == Phase::CasRoot
            &&& e.code == PRECONDITION_FAILED
            &&& reply == (ExtraView::Error { code: e.code, text: e.text })
        },
        flat_next(s, reply, issued).action matches ActionView::Call(ExtraView::KvCas { from, .. })
            ==> {
            &&& s.phase == Phase::WriteChunks || s.phase == Phase::WritePartitions
            &&& reply == ExtraView::KvWriteOk
            &&& s.cursor + 1 == s.writes.len()
            &&& from == s.old_id
        },
        s.phase == Phase::CasRoot && (flat_next(s, reply, issued).action matches ActionView::Reply(
            Ok(_),
        )) ==> reply == ExtraView::KvCasOk,
{
}

/// The chunks to read for `keys`.
fn queue_record(keys: &Vec<u64>, db: &Database) -> (r: Vec<(u64, String)>)
    ensures
        queue_view(r@) == record_chunks(keys@, db@.value),
{
    let mut queue: Vec<(u64, String)> = Vec::new();
    let mut i: usize = 0;
    proof {
        assert(queue_view(queue@) =~= record_chunks(keys@.take(0), db@.value));
    }
    while i < keys.len()
        invariant
            0 <= i <= keys.len(),
            queue_view(queue@) == record_chunks(keys@.take(i as int), db@.value),
        decreases keys.len() - i,
    {
        proof {
            assert(keys@.take(i + 1).drop_last() =~= keys@.take(i as int));
        }
        match &db.inner.value {
            LazyValue::Loaded(record) => match record.get(keys[i]) {
                Some(name) => {
                    let entry = (keys[i], name.clone());
                    proof {
                        assert(queue_view(queue@.push(entry)) =~= queue_view(queue@).push(
                            (keys[i as int], name@),
                        ));
                    }
                    queue.push(entry);
                },
                None => {},
            },
            _ => {},
        }
        i += 1;
    }
    proof {
        assert(keys@.take(i as int) =~= keys@);
    }
    queue
}

/// A transaction over a flat root, from the operations of the client to
/// its reply.
#[derive(Debug)]
pub struct Transactor {
    node_id: String,
    phase: Phase,
    ops: Vec<Query>,
    old_id: Json,
    db: Database,
    state: Table<Vec<u64>>,
    queue: Vec<(u64, String)>,
    cursor: usize,
    results: Vec<Query>,
    writes: Vec<(String, Json)>,
}

impl View for Transactor {
    type V = FlatView;

    closed spec fn view(&self) -> FlatView {
        FlatView {
            node: self.node_id@,
            phase: self.phase,
            ops: queries_view(self.ops@),
            old_id: self.old_id@,
            db: self.db@,
            state: self.state@,
            queue: queue_view(self.queue@),
            cursor: self.cursor as nat,
            results: queries_view(self.results@),
            writes: writes_view(self.writes@),
        }
    }
}

impl Transactor {
    /// A transaction of node `node_id` that has not been given its
    /// operations yet.
    pub fn new(node_id: &str) -> (r: Transactor)
        ensures
            r@ == (FlatView { phase: Phase::Idle, ..flat_begin(node_id@, Seq::empty()).0 }),
    {
        let r = Transactor {
            node_id: String::from_str(node_id),
            phase: Phase::Idle,
            ops: Vec::new(),
            old_id: Json::Null,
            db: Database::from_json_value(&Json::Null),
            state: Table::new(),
            queue: Vec::new(),
            cursor: 0,
            results: Vec::new(),
            writes: Vec::new(),
        };
        proof {
            assert(queries_view(r.ops@) =~= Seq::empty());
            assert(queue_view(r.queue@) =~= Seq::empty());
            assert(writes_view(r.writes@) =~= Seq::empty());
        }
        r
    }

    /// Where the transaction stands.
    pub fn phase(&self) -> (r: Phase)
        ensures
            r == self@.phase,
    {
        self.phase
    }

    /// What the reply to a read holds: the value, or `null` for a key that
    /// does not exist. Any other reply breaks the protocol.
    pub fn kv_read(reply: &MessageExtra) -> (r: Result<Json, Fatal>)
        ensures
            match r {
                Ok(value) => match read_reply(reply@) {
                    Ok(Some(found)) => value@ == found,
                    Ok(None) => value@ == JsonValue::Null,
                    Err(_) => false,
                },
                Err(f) => read_reply(reply@) == Err::<Option<JsonValue>, _>(f),
            },
    {
        match crate::transactor2::kv_read(reply) {
            Ok(Some(value)) => Ok(value.duplicate()),
            Ok(None) => Ok(Json::Null),
            Err(f) => Err(f),
        }
    }

    /// The request to put `to` in the place of `from` under `key`, or in
    /// the place of nothing.
    pub fn kv_cas(key: &Json, from: &Json, to: &Json) -> (r: MessageExtra)
        ensures
            r@ == (ExtraView::KvCas {
                key: key@,
                from: from@,
                to: to@,
                create_if_not_exists: true,
            }),
    {
        MessageExtra::KvCas(
            KvCasData {
                key: key.duplicate(),
                from: from.duplicate(),
                to: to.duplicate(),
                create_if_not_exists: true,
            },
        )
    }

    /// Sets out on the operations `txns`: takes them in and asks for the
    /// root. Whatever the transaction did before is forgotten.
    pub fn transact(&mut self, txns: &[Query]) -> (r: Action)
        ensures
            (final(self)@, r@) == flat_begin(old(self)@.node, queries_view(txns@)),
    {
        let mut ops: Vec<Query> = Vec::new();
        let mut i: usize = 0;
        while i < txns.len()
            invariant
                0 <= i <= txns.len(),
                ops.len() == i,
                forall|j: int| 0 <= j < i ==> (#[trigger] ops[j])@ == txns[j]@,
            decreases txns.len() - i,
        {
            ops.push(txns[i].duplicate());
            i += 1;
        }
        self.phase = Phase::LoadRoot;
        self.ops = ops;
        self.old_id = Json::Null;
        self.db = Database::from_json_value(&Json::Null);
        self.state = Table::new();
        self.queue = Vec::new();
        self.cursor = 0;
        self.results = Vec::new();
        self.writes = Vec::new();
        proof {
            reveal_strlit("ROOT");
            assert("ROOT"@ =~= root_name());
            assert(queries_view(self.ops@) =~= queries_view(txns@));
            assert(queries_view(self.results@) =~= Seq::empty());
            assert(queue_view(self.queue@) =~= Seq::empty());
            assert(writes_view(self.writes@) =~= Seq::empty());
        }
        Action::Call(MessageExtra::KvRead(KvReadExtra { key: Json::Str(String::from_str("ROOT")) }))
    }

    /// The transaction stops: the protocol was broken.
    fn stop(&mut self, f: Fatal, ids: &IdGen) -> (r: Action)
        ensures
            (FlatStep { txn: final(self)@, action: r@, issued: ids.issued() }) == flat_fail(
                old(self)@,
                f,
                ids.issued(),
            ),
    {
        self.phase = Phase::Failed;
        Action::Fail(f)
    }

    /// The snapshot is complete: applies the operations, and stages the
    /// writes if there are any.
    fn finish(&mut self, ids: &mut IdGen) -> (r: Action)
        requires
            old(self).cursor == 0,
        ensures
            (FlatStep { txn: final(self)@, action: r@, issued: final(ids).issued() })
                == flat_finish(old(self)@, old(ids).issued()),
    {
        let ghost s = self@;
        let ghost c0 = ids.issued();
        let mut after = self.state.duplicate();
        let results = match self.db.transact(&self.ops, &mut after) {
            Ok(results) => results,
            Err(f) => {
                return self.stop(f, ids);
            },
        };
        let written = collect_written(&self.ops);
        proof {
            lemma_written_distinct(s.ops);
        }
        if written.len() == 0 {
            self.phase = Phase::Committed;
            self.results = results;
            return Action::Reply(Ok(copy_queries(&self.results)));
        }
        let left = ids.remaining();
        if left < written.len() as u64 || left - (written.len() as u64) < 1 {
            return self.stop(Fatal::Exhausted, ids);
        }
        let (mut writes, saved) = match stage_chunks(&written, &after, self.node_id.as_str(), ids) {
            Some(staged) => staged,
            None => {
                assert(false);
                return self.stop(Fatal::Exhausted, ids);
            },
        };
        self.db.merge(&saved, self.node_id.as_str(), ids);
        let ghost chunk_part = writes@;
        match self.db.save() {
            Some(write) => {
                writes.push(write);
            },
            None => {},
        }
        proof {
            assert(writes_view(writes@) =~= writes_view(chunk_part) + record_write(self.db@));
        }
        self.phase = Phase::WriteChunks;
        self.cursor = 0;
        self.results = results;
        self.writes = writes;
        let request = MessageExtra::KvWrite(
            KvWriteExtra {
                key: Json::Str(self.writes[0].0.clone()),
                value: self.writes[0].1.duplicate(),
            },
        );
        proof {
            assert(writes_view(self.writes@)[0] == (self.writes[0].0@, self.writes[0].1@));
            assert(self@ =~~= flat_finish(s, c0).txn);
        }
        Action::Call(request)
    }

    /// The record is known, or not to be had: queues the chunks of the
    /// keys.
    fn enter_chunks(&mut self, ids: &mut IdGen) -> (r: Action)
        ensures
            (FlatStep { txn: final(self)@, action: r@, issued: final(ids).issued() })
                == flat_enter_chunks(old(self)@, old(ids).issued()),
    {
        let keys = collect_keys(&self.ops);
        let queue = queue_record(&keys, &self.db);
        if queue.len() > 0 {
            self.phase = Phase::LoadChunks;
            self.queue = queue;
            self.cursor = 0;
            let request = MessageExtra::KvRead(
                KvReadExtra { key: Json::Str(self.queue[0].1.clone()) },
            );
            proof {
                assert(queue_view(self.queue@)[0] == (self.queue[0].0, self.queue[0].1@));
            }
            Action::Call(request)
        } else {
            self.queue = queue;
            self.cursor = 0;
            self.finish(ids)
        }
    }

    /// Goes on with the reply to the request that the transaction asked
    /// for last. A reply that the request does not allow, or any reply to
    /// a transaction that asked for nothing, stops it.
    pub fn resume(&mut self, reply: &MessageExtra, ids: &mut IdGen) -> (r: Action)
        ensures
            (FlatStep { txn: final(self)@, action: r@, issued: final(ids).issued() }) == flat_next(
                old(self)@,
                reply@,
                old(ids).issued(),
            ),
    {
        match self.phase {
            Phase::LoadRoot => match Transactor::kv_read(reply) {
                Err(f) => self.stop(f, ids),
                Ok(pointer) => {
                    self.db = Database::from_json_value(&pointer);
                    self.old_id = self.db.to_json_value();
                    let named = match &self.db.inner.id {
                        LazyValue::Loaded(_) => true,
                        _ => false,
                    };
                    if named {
                        match self.db.inner.load_request(self.node_id.as_str(), ids) {
                            Some(request) => {
                                self.phase = Phase::LoadPartitions;
                                Action::Call(request)
                            },
                            None => {
                                assert(false);
                                self.stop(Fatal::UnexpectedReply, ids)
                            },
                        }
                    } else {
                        self.enter_chunks(ids)
                    }
                },
            },
            Phase::LoadPartitions => {
                self.db.inner.load(reply);
                proof {
                    if self.db.inner.value is Loaded {
                        crate::storage::lemma_ids_round_trip(self.db.inner.value->Loaded_0@);
                    }
                }
                self.enter_chunks(ids)
            },
            Phase::LoadChunks => {
                if self.cursor < self.queue.len() {
                    let key = self.queue[self.cursor].0;
                    proof {
                        assert(queue_view(self.queue@)[self.cursor as int].0 == key);
                    }
                    match reply {
                        MessageExtra::KvReadOk(ok) => match crate::storage::decode_list(&ok.value) {
                            Some(list) => {
                                self.state.insert(key, list);
                            },
                            None => {},
                        },
                        _ => {},
                    }
                    self.cursor = self.cursor + 1;
                    if self.cursor < self.queue.len() {
                        let request = MessageExtra::KvRead(
                            KvReadExtra { key: Json::Str(self.queue[self.cursor].1.clone()) },
                        );
                        proof {
                            assert(queue_view(self.queue@)[self.cursor as int] == (
                                self.queue[self.cursor as int].0,
                                self.queue[self.cursor as int].1@,
                            ));
                        }
                        Action::Call(request)
                    } else {
                        self.cursor = 0;
                        self.finish(ids)
                    }
                } else {
                    self.stop(Fatal::UnexpectedReply, ids)
                }
            },
            Phase::WriteChunks | Phase::WritePartitions => {
                let acknowledged = match reply {
                    MessageExtra::KvWriteOk => true,
                    _ => false,
                };
                if acknowledged && self.cursor < self.writes.len() {
                    self.cursor = self.cursor + 1;
                    if self.cursor < self.writes.len() {
                        self.phase = if self.cursor + 1 < self.writes.len() {
                            Phase::WriteChunks
                        } else {
                            Phase::WritePartitions
                        };
                        let request = MessageExtra::KvWrite(
                            KvWriteExtra {
                                key: Json::Str(self.writes[self.cursor].0.clone()),
                                value: self.writes[self.cursor].1.duplicate(),
                            },
                        );
                        proof {
                            assert(writes_view(self.writes@)[self.cursor as int] == (
                                self.writes[self.cursor as int].0@,
                                self.writes[self.cursor as int].1@,
                            ));
                        }
                        Action::Call(request)
                    } else {
                        self.phase = Phase::CasRoot;
                        proof {
                            reveal_strlit("ROOT");
                            assert("ROOT"@ =~= root_name());
                        }
                        let to = self.db.to_json_value();
                        let _ = self.db.inner.save(MessageExtra::KvWriteOk);
                        Action::Call(
                            Transactor::kv_cas(
                                &Json::Str(String::from_str("ROOT")),
                                &self.old_id,
                                &to,
                            ),
                        )
                    }
                } else {
                    self.stop(Fatal::UnexpectedReply, ids)
                }
            },
            Phase::CasRoot => match reply {
                MessageExtra::KvCasOk => {
                    self.phase = Phase::Committed;
                    Action::Reply(Ok(copy_queries(&self.results)))
                },
                MessageExtra::Error(e) => {
                    if e.code == PRECONDITION_FAILED {
                        self.phase = Phase::Aborted;
                        Action::Reply(Err(ErrorExtra { code: e.code, text: e.text.clone() }))
                    } else {
                        self.stop(Fatal::UnexpectedReply, ids)
                    }
                },
                _ => self.stop(Fatal::UnexpectedReply, ids),
            },
            _ => self.stop(Fatal::UnexpectedReply, ids),
        }
    }
}

} // verus!

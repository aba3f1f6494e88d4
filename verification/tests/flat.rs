use maelstrom_node::idgen::IdGen;
use maelstrom_node::json::{parse, Json};
use maelstrom_node::messages::{ErrorExtra, KvReadOkExtra, MessageExtra, Query, QueryValue};
use maelstrom_node::snapshot::Fatal;
use maelstrom_node::table::Table;
use maelstrom_node::thunk::LazyValue;
use maelstrom_node::transactor::{Database, Transactor};
use maelstrom_node::transactor2::{Action, Phase};
use std::collections::BTreeMap;

struct Store {
    values: BTreeMap<String, Json>,
    writes: Vec<String>,
    cas: Vec<(Json, Json)>,
    conflict: bool,
}

fn store() -> Store {
    Store { values: BTreeMap::new(), writes: Vec::new(), cas: Vec::new(), conflict: false }
}

fn name_of(key: &Json) -> String {
    match key {
        Json::Str(s) => s.clone(),
        other => panic!("{:?}", other),
    }
}

fn serve(store: &mut Store, request: &MessageExtra) -> MessageExtra {
    match request {
        MessageExtra::KvRead(read) => match store.values.get(&name_of(&read.key)) {
            Some(value) => MessageExtra::KvReadOk(KvReadOkExtra { value: value.clone() }),
            None => MessageExtra::Error(ErrorExtra { code: 20, text: String::new() }),
        },
        MessageExtra::KvWrite(write) => {
            store.writes.push(name_of(&write.key));
            store.values.insert(name_of(&write.key), write.value.clone());
            MessageExtra::KvWriteOk
        }
        MessageExtra::KvCas(cas) => {
            store.cas.push((cas.from.clone(), cas.to.clone()));
            let current = store.values.get(&name_of(&cas.key)).cloned();
            let fits = match current {
                Some(value) => value == cas.from,
                None => cas.create_if_not_exists,
            };
            if fits && !store.conflict {
                store.values.insert(name_of(&cas.key), cas.to.clone());
                MessageExtra::KvCasOk
            } else {
                MessageExtra::Error(ErrorExtra { code: 22, text: "changed".to_string() })
            }
        }
        other => panic!("{:?}", other),
    }
}

fn run(store: &mut Store, ids: &mut IdGen, ops: Vec<Query>) -> Action {
    let mut txn = Transactor::new("n0");
    let mut action = txn.transact(&ops);
    loop {
        match action {
            Action::Call(request) => {
                let reply = serve(store, &request);
                action = txn.resume(&reply, ids);
            }
            done => return done,
        }
    }
}

fn r(key: u64) -> Query {
    Query("r".to_string(), key, QueryValue::Read(None))
}

fn saw(key: u64, list: Vec<u64>) -> Query {
    Query("r".to_string(), key, QueryValue::Read(Some(list)))
}

fn a(key: u64, v: u64) -> Query {
    Query("append".to_string(), key, QueryValue::Append(v))
}

fn ok(action: Action) -> Vec<Query> {
    match action {
        Action::Reply(Ok(txn)) => txn,
        other => panic!("{:?}", other),
    }
}

#[test]
fn a_flat_read_of_a_cold_store_writes_nothing() {
    let mut kv = store();
    let mut ids = IdGen::new();
    assert_eq!(ok(run(&mut kv, &mut ids, vec![r(7)])), vec![r(7)]);
    assert!(kv.writes.is_empty());
    assert!(kv.cas.is_empty());
    assert_eq!(ids.count(), 0);
}

#[test]
fn a_flat_append_writes_a_chunk_and_a_record() {
    let mut kv = store();
    let mut ids = IdGen::new();
    assert_eq!(ok(run(&mut kv, &mut ids, vec![a(7, 3)])), vec![a(7, 3)]);
    assert_eq!(kv.writes, vec!["n0-1".to_string(), "n0-2".to_string()]);
    assert_eq!(kv.values.get("n0-1"), Some(&parse("[3]").unwrap()));
    assert_eq!(kv.values.get("n0-2"), Some(&parse(r#"{"7":"n0-1"}"#).unwrap()));
    assert_eq!(kv.cas, vec![(Json::Null, Json::Str("n0-2".to_string()))]);
    assert_eq!(kv.values.get("ROOT"), Some(&Json::Str("n0-2".to_string())));
}

#[test]
fn flat_transactions_build_on_each_other() {
    let mut kv = store();
    let mut ids = IdGen::new();
    run(&mut kv, &mut ids, vec![a(7, 1), a(100, 5)]);
    run(&mut kv, &mut ids, vec![a(7, 2)]);
    let out = ok(run(&mut kv, &mut ids, vec![r(7), a(7, 3), r(7), r(100), r(8)]));
    assert_eq!(out, vec![saw(7, vec![1, 2]), a(7, 3), saw(7, vec![1, 2, 3]), saw(100, vec![5]), r(8)]);
    assert_eq!(kv.cas.len(), 3);
    assert_eq!(kv.cas[1].0, Json::Str("n0-3".to_string()));
    let mut names = kv.writes.clone();
    names.sort();
    names.dedup();
    assert_eq!(names.len(), kv.writes.len());
    assert_eq!(kv.writes.len(), 7);
}

#[test]
fn a_flat_conflict_is_handed_to_the_client() {
    let mut kv = store();
    let mut ids = IdGen::new();
    kv.conflict = true;
    match run(&mut kv, &mut ids, vec![a(7, 3)]) {
        Action::Reply(Err(e)) => {
            assert_eq!(e.code, 22);
            assert_eq!(e.text, "changed");
        }
        other => panic!("{:?}", other),
    }
    assert_eq!(kv.values.get("ROOT"), None);
}

#[test]
fn a_flat_transaction_stops_on_a_wrong_operation() {
    let mut kv = store();
    let mut ids = IdGen::new();
    match run(&mut kv, &mut ids, vec![Query("x".to_string(), 1, QueryValue::Read(None))]) {
        Action::Fail(f) => assert_eq!(f, Fatal::WrongOperation),
        other => panic!("{:?}", other),
    }
}

#[test]
fn a_flat_transaction_walks_through_its_phases() {
    let mut ids = IdGen::new();
    let mut t = Transactor::new("n0");
    assert_eq!(t.phase(), Phase::Idle);
    t.transact(&[a(1, 1)]);
    assert_eq!(t.phase(), Phase::LoadRoot);
    let root = MessageExtra::KvReadOk(KvReadOkExtra { value: Json::Str("n9-4".to_string()) });
    match t.resume(&root, &mut ids) {
        Action::Call(MessageExtra::KvRead(read)) => assert_eq!(read.key, Json::Str("n9-4".to_string())),
        other => panic!("{:?}", other),
    }
    assert_eq!(t.phase(), Phase::LoadPartitions);
    let record = MessageExtra::KvReadOk(KvReadOkExtra { value: parse(r#"{"1":"n9-3","2":"n9-2"}"#).unwrap() });
    match t.resume(&record, &mut ids) {
        Action::Call(MessageExtra::KvRead(read)) => assert_eq!(read.key, Json::Str("n9-3".to_string())),
        other => panic!("{:?}", other),
    }
    assert_eq!(t.phase(), Phase::LoadChunks);
    let chunk = MessageExtra::KvReadOk(KvReadOkExtra { value: parse("[8]").unwrap() });
    match t.resume(&chunk, &mut ids) {
        Action::Call(MessageExtra::KvWrite(w)) => {
            assert_eq!(w.key, Json::Str("n0-1".to_string()));
            assert_eq!(w.value, parse("[8,1]").unwrap());
        }
        other => panic!("{:?}", other),
    }
    assert_eq!(t.phase(), Phase::WriteChunks);
    match t.resume(&MessageExtra::KvWriteOk, &mut ids) {
        Action::Call(MessageExtra::KvWrite(w)) => {
            assert_eq!(w.key, Json::Str("n0-2".to_string()));
            assert_eq!(w.value.get("1"), Some(&Json::Str("n0-1".to_string())));
            assert_eq!(w.value.get("2"), Some(&Json::Str("n9-2".to_string())));
        }
        other => panic!("{:?}", other),
    }
    assert_eq!(t.phase(), Phase::WritePartitions);
    match t.resume(&MessageExtra::KvWriteOk, &mut ids) {
        Action::Call(MessageExtra::KvCas(c)) => {
            assert_eq!(c.from, Json::Str("n9-4".to_string()));
            assert_eq!(c.to, Json::Str("n0-2".to_string()));
            assert!(c.create_if_not_exists);
        }
        other => panic!("{:?}", other),
    }
    assert_eq!(t.phase(), Phase::CasRoot);
    assert_eq!(ok(t.resume(&MessageExtra::KvCasOk, &mut ids)), vec![a(1, 1)]);
    assert_eq!(t.phase(), Phase::Committed);
}

#[test]
fn the_database_is_what_the_root_points_to() {
    let db = Database::from_json_value(&Json::Str("n0-4".to_string()));
    assert!(matches!(db.inner.id, LazyValue::Loaded(ref s) if s == "n0-4"));
    assert!(matches!(db.inner.value, LazyValue::UnLoaded));
    assert_eq!(db.to_json_value(), Json::Str("n0-4".to_string()));
    assert!(db.save().is_none());
    let none = Database::from_json_value(&Json::Null);
    assert!(matches!(none.inner.id, LazyValue::LoadFailed));
    assert!(matches!(none.inner.value, LazyValue::LoadFailed));
    assert_eq!(none.to_json_value(), Json::Null);
}

#[test]
fn merging_gives_the_record_a_fresh_name() {
    let mut ids = IdGen::new();
    let mut db = Database::from_json_value(&Json::Str("n0-4".to_string()));
    db.inner.value = LazyValue::Loaded(Table { entries: vec![(1, "a".to_string()), (2, "b".to_string())] });
    let saved = Table { entries: vec![(2, "c".to_string()), (3, "d".to_string())] };
    db.merge(&saved, "n0", &mut ids);
    assert_eq!(db.to_json_value(), Json::Str("n0-1".to_string()));
    let (name, value) = db.save().unwrap();
    assert_eq!(name, "n0-1");
    assert_eq!(value.get("1"), Some(&Json::Str("a".to_string())));
    assert_eq!(value.get("2"), Some(&Json::Str("c".to_string())));
    assert_eq!(value.get("3"), Some(&Json::Str("d".to_string())));
    let mut empty = Database::from_json_value(&Json::Null);
    empty.merge(&saved, "n0", &mut ids);
    assert_eq!(empty.to_json_value(), Json::Str("n0-2".to_string()));
    let mut state: Table<Vec<u64>> = Table::new();
    assert_eq!(empty.transact(&vec![a(1, 1), r(1)], &mut state), Ok(vec![a(1, 1), saw(1, vec![1])]));
}

#[test]
fn the_reply_to_a_read_is_a_value_or_nothing() {
    let value = MessageExtra::KvReadOk(KvReadOkExtra { value: Json::Number(4) });
    assert_eq!(Transactor::kv_read(&value), Ok(Json::Number(4)));
    let absent = MessageExtra::Error(ErrorExtra { code: 20, text: String::new() });
    assert_eq!(Transactor::kv_read(&absent), Ok(Json::Null));
    let broken = MessageExtra::Error(ErrorExtra { code: 11, text: String::new() });
    assert_eq!(Transactor::kv_read(&broken), Err(Fatal::UnexpectedReply));
    assert_eq!(Transactor::kv_read(&MessageExtra::KvCasOk), Err(Fatal::UnexpectedReply));
    match Transactor::kv_cas(&Json::Str("ROOT".to_string()), &Json::Null, &Json::Number(1)) {
        MessageExtra::KvCas(c) => {
            assert_eq!(c.key, Json::Str("ROOT".to_string()));
            assert_eq!(c.from, Json::Null);
            assert_eq!(c.to, Json::Number(1));
            assert!(c.create_if_not_exists);
        }
        other => panic!("{:?}", other),
    }
}

use maelstrom_node::codec::{emit_message, parse_message};
use maelstrom_node::json::{parse, Json};
use maelstrom_node::messages::{
    ErrorExtra, KvReadOkExtra, Message, MessageBody, MessageExtra, Query, QueryValue,
};
use maelstrom_node::node::Node;
use maelstrom_node::snapshot::Fatal;
use std::collections::BTreeMap;

/// A key-value service in memory, with a log of what was asked of it.
struct Service {
    /// The names written and, as `ROOT`, each compare-and-set, in order.
    log: Vec<String>,
    store: BTreeMap<String, Json>,
    reads: Vec<String>,
    writes: Vec<(String, Json)>,
    cas: Vec<(Json, Json)>,
    conflict: bool,
    next_msg_id: u64,
}

fn service() -> Service {
    Service {
        log: Vec::new(),
        store: BTreeMap::new(),
        reads: Vec::new(),
        writes: Vec::new(),
        cas: Vec::new(),
        conflict: false,
        next_msg_id: 1000,
    }
}

fn name_of(key: &Json) -> String {
    match key {
        Json::Str(s) => s.clone(),
        other => panic!("the key of a request is no string: {:?}", other),
    }
}

fn answer(service: &mut Service, request: &Message) -> Message {
    let extra = match &request.body.extra {
        MessageExtra::KvRead(read) => {
            let name = name_of(&read.key);
            service.reads.push(name.clone());
            match service.store.get(&name) {
                Some(value) => MessageExtra::KvReadOk(KvReadOkExtra { value: value.clone() }),
                None => MessageExtra::Error(ErrorExtra {
                    code: 20,
                    text: "key does not exist".to_string(),
                }),
            }
        }
        MessageExtra::KvWrite(write) => {
            let name = name_of(&write.key);
            service.log.push(name.clone());
            service.writes.push((name.clone(), write.value.clone()));
            service.store.insert(name, write.value.clone());
            MessageExtra::KvWriteOk
        }
        MessageExtra::KvCas(cas) => {
            let name = name_of(&cas.key);
            service.log.push(name.clone());
            service.cas.push((cas.from.clone(), cas.to.clone()));
            let current = service.store.get(&name).cloned();
            let matches = match &current {
                Some(value) => *value == cas.from,
                None => cas.create_if_not_exists,
            };
            if matches && !service.conflict {
                service.store.insert(name, cas.to.clone());
                MessageExtra::KvCasOk
            } else {
                MessageExtra::Error(ErrorExtra {
                    code: 22,
                    text: "the root has changed".to_string(),
                })
            }
        }
        other => panic!("not a request to the service: {:?}", other),
    };
    service.next_msg_id += 1;
    Message {
        src: "lin-kv".to_string(),
        dest: request.src.clone(),
        body: MessageBody {
            msg_id: Some(service.next_msg_id),
            in_reply_to: request.body.msg_id,
            extra,
        },
    }
}

/// Hands one message to the node and plays the service until the node has
/// nothing left for it. Gives what the node sent to anyone else.
fn deliver(node: &mut Node, service: &mut Service, message: Message) -> Vec<Message> {
    let mut inbox = vec![message];
    let mut out = Vec::new();
    while !inbox.is_empty() {
        let next = inbox.remove(0);
        for frame in node.handle_message(next) {
            if frame.dest == "lin-kv" {
                inbox.push(answer(service, &frame));
            } else {
                out.push(frame);
            }
        }
        assert_eq!(node.fault, None);
    }
    out
}

fn started() -> Node {
    let mut node = Node::new();
    let init = parse_message(
        r#"{"src":"c0","dest":"n0","body":{"type":"init","msg_id":1,"node_id":"n0","node_ids":["n0"]}}"#,
    )
    .unwrap();
    let mut nobody = service();
    let out = deliver(&mut node, &mut nobody, init);
    assert_eq!(out.len(), 1);
    assert_eq!(out[0].body.extra, MessageExtra::InitOk);
    node
}

fn txn(msg_id: u64, ops: Vec<Query>) -> Message {
    Message {
        src: "c1".to_string(),
        dest: "n0".to_string(),
        body: MessageBody {
            msg_id: Some(msg_id),
            in_reply_to: None,
            extra: MessageExtra::Txn(maelstrom_node::messages::TxnRequestExtra { txn: ops }),
        },
    }
}

fn read(key: u64) -> Query {
    Query("r".to_string(), key, QueryValue::Read(None))
}

fn saw(key: u64, list: Vec<u64>) -> Query {
    Query("r".to_string(), key, QueryValue::Read(Some(list)))
}

fn append(key: u64, value: u64) -> Query {
    Query("append".to_string(), key, QueryValue::Append(value))
}

fn answers_of(out: &[Message]) -> Vec<Query> {
    assert_eq!(out.len(), 1);
    match &out[0].body.extra {
        MessageExtra::TxnOk(ok) => ok.txn.clone(),
        other => panic!("no txn_ok: {:?}", other),
    }
}

fn object(members: Vec<(&str, Json)>) -> Json {
    Json::Object(members.into_iter().map(|(k, v)| (k.to_string(), v)).collect())
}

fn numbers(list: Vec<u64>) -> Json {
    Json::Array(list.into_iter().map(Json::Number).collect())
}

fn text(s: &str) -> Json {
    Json::Str(s.to_string())
}

#[test]
fn empty_read_on_cold_store() {
    let mut node = started();
    let mut kv = service();
    let request = parse_message(
        r#"{"src":"c1","dest":"n0","body":{"type":"txn","msg_id":1,"txn":[["r",7,null]]}}"#,
    )
    .unwrap();
    let out = deliver(&mut node, &mut kv, request);
    assert_eq!(out.len(), 1);
    assert_eq!(out[0].src, "n0");
    assert_eq!(out[0].dest, "c1");
    assert_eq!(out[0].body.in_reply_to, Some(1));
    assert!(out[0].body.msg_id.is_some());
    assert_eq!(answers_of(&out), vec![read(7)]);
    assert_eq!(kv.reads, vec!["ROOT".to_string()]);
    assert!(kv.writes.is_empty());
    assert!(kv.cas.is_empty());
    let line = emit_message(&out[0]).unwrap();
    let frame = parse(&line).unwrap();
    let body = frame.get("body").unwrap();
    assert_eq!(frame.get("src"), Some(&text("n0")));
    assert_eq!(frame.get("dest"), Some(&text("c1")));
    assert_eq!(body.get("type"), Some(&text("txn_ok")));
    assert_eq!(body.get("in_reply_to"), Some(&Json::Number(1)));
    assert_eq!(
        body.get("txn"),
        Some(&Json::Array(vec![Json::Array(vec![text("r"), Json::Number(7), Json::Null])]))
    );
}

#[test]
fn single_append_creates_partition_and_chunk() {
    let mut node = started();
    let mut kv = service();
    let out = deliver(&mut node, &mut kv, txn(1, vec![append(7, 3)]));
    assert_eq!(answers_of(&out), vec![append(7, 3)]);
    assert_eq!(kv.writes.len(), 2);
    let (chunk, list) = kv.writes[0].clone();
    let (part, mapping) = kv.writes[1].clone();
    assert_eq!(chunk, "n0-1");
    assert_eq!(list, numbers(vec![3]));
    assert_eq!(part, "part-0-n0-2");
    assert_eq!(mapping, object(vec![("7", text("n0-1"))]));
    assert_eq!(kv.cas, vec![(object(vec![]), object(vec![("0", text("part-0-n0-2"))]))]);
    assert_eq!(kv.store.get("ROOT"), Some(&object(vec![("0", text("part-0-n0-2"))])));
}

#[test]
fn read_then_append_then_read_in_one_txn() {
    let mut node = started();
    let mut kv = service();
    deliver(&mut node, &mut kv, txn(1, vec![append(7, 1), append(7, 2)]));
    let out = deliver(&mut node, &mut kv, txn(2, vec![read(7), append(7, 3), read(7)]));
    assert_eq!(answers_of(&out), vec![saw(7, vec![1, 2]), append(7, 3), saw(7, vec![1, 2, 3])]);
}

#[test]
fn partition_co_location() {
    let mut node = started();
    let mut kv = service();
    let out = deliver(&mut node, &mut kv, txn(1, vec![append(7, 1), append(19, 2)]));
    assert_eq!(answers_of(&out), vec![append(7, 1), append(19, 2)]);
    assert_eq!(kv.writes.len(), 3);
    assert_eq!(kv.writes[0], ("n0-1".to_string(), numbers(vec![1])));
    assert_eq!(kv.writes[1], ("n0-2".to_string(), numbers(vec![2])));
    assert_eq!(kv.writes[2].0, "part-0-n0-3");
    assert_eq!(
        parse(r#"{"7":"n0-1","19":"n0-2"}"#).unwrap().get("19"),
        kv.writes[2].1.get("19")
    );
    assert_eq!(kv.writes[2].1.get("7"), Some(&text("n0-1")));
    assert_eq!(kv.cas.len(), 1);
}

#[test]
fn cross_partition_write() {
    let mut node = started();
    let mut kv = service();
    let out = deliver(&mut node, &mut kv, txn(1, vec![append(7, 1), append(40, 2)]));
    assert_eq!(answers_of(&out), vec![append(7, 1), append(40, 2)]);
    assert_eq!(kv.writes.len(), 4);
    assert_eq!(kv.writes[2], ("part-0-n0-3".to_string(), object(vec![("7", text("n0-1"))])));
    assert_eq!(kv.writes[3], ("part-2-n0-4".to_string(), object(vec![("40", text("n0-2"))])));
    assert_eq!(kv.cas.len(), 1);
    let root = kv.cas[0].1.clone();
    assert_eq!(root.get("0"), Some(&text("part-0-n0-3")));
    assert_eq!(root.get("2"), Some(&text("part-2-n0-4")));
}

#[test]
fn cas_conflict() {
    let mut node = started();
    let mut kv = service();
    kv.conflict = true;
    let out = deliver(&mut node, &mut kv, txn(1, vec![append(7, 3)]));
    assert_eq!(out.len(), 1);
    assert_eq!(out[0].body.in_reply_to, Some(1));
    match &out[0].body.extra {
        MessageExtra::Error(e) => assert_eq!(e.code, 22),
        other => panic!("no error: {:?}", other),
    }
    let written = kv.writes.len();
    assert_eq!(written, 2);
    assert_eq!(kv.store.get("ROOT"), None);
    kv.conflict = false;
    kv.reads.clear();
    let out = deliver(&mut node, &mut kv, txn(2, vec![read(7)]));
    assert_eq!(answers_of(&out), vec![read(7)]);
    assert_eq!(kv.reads, vec!["ROOT".to_string()]);
    assert_eq!(kv.writes.len(), written);
}

#[test]
fn an_absent_key_reads_as_nothing_not_as_an_empty_list() {
    let mut node = started();
    let mut kv = service();
    deliver(&mut node, &mut kv, txn(1, vec![append(7, 1)]));
    let out = deliver(&mut node, &mut kv, txn(2, vec![read(8), read(7)]));
    assert_eq!(answers_of(&out), vec![read(8), saw(7, vec![1])]);
}

#[test]
fn a_later_transaction_keeps_the_other_keys_of_a_partition() {
    let mut node = started();
    let mut kv = service();
    deliver(&mut node, &mut kv, txn(1, vec![append(7, 1), append(8, 5)]));
    deliver(&mut node, &mut kv, txn(2, vec![append(7, 2)]));
    let out = deliver(&mut node, &mut kv, txn(3, vec![read(7), read(8)]));
    assert_eq!(answers_of(&out), vec![saw(7, vec![1, 2]), saw(8, vec![5])]);
}

#[test]
fn every_name_written_is_written_once() {
    let mut node = started();
    let mut kv = service();
    deliver(&mut node, &mut kv, txn(1, vec![append(7, 1), append(40, 5)]));
    deliver(&mut node, &mut kv, txn(2, vec![append(7, 2), append(19, 5)]));
    deliver(&mut node, &mut kv, txn(3, vec![append(40, 2)]));
    let mut names: Vec<String> = kv.writes.iter().map(|w| w.0.clone()).collect();
    let count = names.len();
    assert_eq!(count, 9);
    names.sort();
    names.dedup();
    assert_eq!(names.len(), count);
    assert!(!names.contains(&"ROOT".to_string()));
}

#[test]
fn every_partition_in_the_new_root_is_written_before_the_cas() {
    let mut node = started();
    let mut kv = service();
    deliver(&mut node, &mut kv, txn(1, vec![append(7, 1), append(40, 5), append(100, 9)]));
    let root = kv.cas[0].1.clone();
    match root {
        Json::Object(members) => {
            assert_eq!(members.len(), 3);
            let at = kv.log.iter().position(|n| n == "ROOT").unwrap();
            assert_eq!(at, kv.log.len() - 1);
            for (_, name) in members {
                assert!(kv.log[..at].iter().any(|n| Json::Str(n.clone()) == name));
            }
        }
        other => panic!("the root is no object: {:?}", other),
    }
}

#[test]
fn a_wrong_operation_ends_the_node() {
    let mut node = started();
    let mut kv = service();
    let request = txn(1, vec![Query("w".to_string(), 1, QueryValue::Append(1))]);
    let frames = node.handle_message(request);
    assert_eq!(frames.len(), 1);
    let reply = answer(&mut kv, &frames[0]);
    let frames = node.handle_message(reply);
    assert!(frames.is_empty());
    assert_eq!(node.fault, Some(Fatal::WrongOperation));
}

#[test]
fn an_append_without_a_number_ends_the_node() {
    let mut node = started();
    let mut kv = service();
    let request = txn(1, vec![Query("append".to_string(), 1, QueryValue::Read(None))]);
    let frames = node.handle_message(request);
    let reply = answer(&mut kv, &frames[0]);
    node.handle_message(reply);
    assert_eq!(node.fault, Some(Fatal::WrongAppendValue));
}

#[test]
fn an_unexpected_reply_ends_the_node() {
    let mut node = started();
    let frames = node.handle_message(txn(1, vec![read(1)]));
    let reply = Message {
        src: "lin-kv".to_string(),
        dest: "n0".to_string(),
        body: MessageBody {
            msg_id: Some(5),
            in_reply_to: frames[0].body.msg_id,
            extra: MessageExtra::Error(ErrorExtra { code: 13, text: "crash".to_string() }),
        },
    };
    node.handle_message(reply);
    assert_eq!(node.fault, Some(Fatal::UnexpectedReply));
}

#[test]
fn a_root_of_the_wrong_shape_ends_the_node() {
    let mut node = started();
    let frames = node.handle_message(txn(1, vec![read(1)]));
    let reply = Message {
        src: "lin-kv".to_string(),
        dest: "n0".to_string(),
        body: MessageBody {
            msg_id: Some(5),
            in_reply_to: frames[0].body.msg_id,
            extra: MessageExtra::KvReadOk(KvReadOkExtra { value: numbers(vec![1]) }),
        },
    };
    node.handle_message(reply);
    assert_eq!(node.fault, Some(Fatal::BadValue));
}

#[test]
fn a_reply_for_a_call_below_waits_until_the_one_above_is_over() {
    let mut node = started();
    let mut kv = service();
    let first = node.handle_message(txn(1, vec![read(1)]));
    let second = node.handle_message(txn(2, vec![read(2)]));
    assert_eq!(first.len(), 1);
    assert_eq!(second.len(), 1);
    let early = answer(&mut kv, &first[0]);
    assert!(node.handle_message(early).is_empty());
    let late = answer(&mut kv, &second[0]);
    let out = node.handle_message(late);
    assert_eq!(out.len(), 2);
    assert_eq!(out[0].body.in_reply_to, Some(2));
    assert_eq!(out[1].body.in_reply_to, Some(1));
    assert_eq!(node.fault, None);
}

#[test]
fn a_node_without_a_msg_id_left_ends() {
    let mut node = started();
    node.msg_id = u64::MAX;
    let frames = node.handle_message(txn(1, vec![read(1)]));
    assert!(frames.is_empty());
    assert_eq!(node.fault, Some(Fatal::Exhausted));
    assert!(node.handle_message(txn(2, vec![read(1)])).is_empty());
    assert_eq!(node.fault, Some(Fatal::Exhausted));
}

#[test]
fn a_new_node_has_seen_nothing() {
    let node = Node::default();
    assert_eq!(node.id, "");
    assert!(node.node_ids.is_empty());
    assert_eq!(node.msg_id, 0);
    assert_eq!(node.ids.count(), 0);
    assert!(node.pending.is_empty());
    assert!(node.outbox.is_empty());
    assert_eq!(node.fault, None);
}

#[test]
fn one_generator_names_the_chunks_and_partitions_of_all_transactions() {
    let mut node = started();
    let mut kv = service();
    deliver(&mut node, &mut kv, txn(1, vec![append(7, 1)]));
    deliver(&mut node, &mut kv, txn(2, vec![read(7)]));
    deliver(&mut node, &mut kv, txn(3, vec![append(7, 2)]));
    let names: Vec<String> = kv.writes.iter().map(|w| w.0.clone()).collect();
    assert_eq!(names, vec!["n0-1", "part-0-n0-2", "n0-3", "part-0-n0-4"]);
    assert_eq!(node.ids.count(), 4);
}

use maelstrom_node::idgen::IdGen;
use maelstrom_node::json::{parse, Json};
use maelstrom_node::message_handlers::{
    BroadcastHandler, BroadcastOkHandler, EchoHandler, GenerateHandler, InitHandler,
    InitOkHandler, MessageHandler, ReadHandler, TopologyHandler, TxnHandler,
};
use maelstrom_node::messages::{
    BroadcastRequestExtra, EchoRequestExtra, EchoResponseExtra, InitRequestExtra, Message,
    MessageBody, MessageExtra, Query, QueryValue, ReadResponseExtra, TopologyRequestExtra,
};
use maelstrom_node::node::Node;
use maelstrom_node::snapshot::{apply, Fatal};
use maelstrom_node::storage::{decode_ids, decode_list, encode_ids, encode_list};
use maelstrom_node::table::Table;
use maelstrom_node::text::{parse_u64, render_u64, same_text};
use maelstrom_node::thunk::{LazyValue, Thunk};
use maelstrom_node::transactor2::{
    collect_keys, collect_parts, collect_written, Action, Phase, Root, Transactor,
    PARTITION_WIDTH,
};

fn from(src: &str, msg_id: Option<u64>, extra: MessageExtra) -> Message {
    Message {
        src: src.to_string(),
        dest: "n1".to_string(),
        body: MessageBody { msg_id, in_reply_to: None, extra },
    }
}

#[test]
fn numbers_are_written_in_decimal() {
    assert_eq!(render_u64(0), "0");
    assert_eq!(render_u64(7), "7");
    assert_eq!(render_u64(10), "10");
    assert_eq!(render_u64(1234567890), "1234567890");
    assert_eq!(render_u64(u64::MAX), "18446744073709551615");
}

#[test]
fn decimal_is_read_back() {
    for n in [0, 1, 9, 10, 99, 100, 4711, u64::MAX - 1, u64::MAX] {
        assert_eq!(parse_u64(&render_u64(n)), Some(n));
    }
}

#[test]
fn what_is_no_decimal_is_refused() {
    for s in ["", "01", "00", "+1", "-1", "1 ", " 1", "1a", "a", "1.0", "18446744073709551616", "99999999999999999999"] {
        assert_eq!(parse_u64(s), None, "{:?}", s);
    }
}

#[test]
fn texts_are_told_apart() {
    assert!(same_text("append", "append"));
    assert!(same_text("", ""));
    assert!(!same_text("append", "appenD"));
    assert!(!same_text("r", "rr"));
    assert!(same_text("é", "é"));
}

#[test]
fn names_count_up_from_one() {
    let mut ids = IdGen::new();
    assert_eq!(ids.count(), 0);
    assert_eq!(ids.next_id("n0"), Some("n0-1".to_string()));
    assert_eq!(ids.next_part_id(3, "n0"), Some("part-3-n0-2".to_string()));
    assert_eq!(ids.next_id("n1"), Some("n1-3".to_string()));
    assert_eq!(ids.next_number(), Some(4));
    assert_eq!(ids.count(), 4);
    assert_eq!(ids.remaining(), u64::MAX - 4);
}

#[test]
fn a_table_keeps_the_latest_value() {
    let mut t: Table<String> = Table::new();
    assert_eq!(t.get(1), None);
    t.insert(1, "a".to_string());
    t.insert(2, "b".to_string());
    t.insert(1, "c".to_string());
    assert_eq!(t.get(1), Some(&"c".to_string()));
    assert_eq!(t.get(2), Some(&"b".to_string()));
    assert!(t.contains_key(2));
    t.remove(1);
    assert_eq!(t.get(1), None);
    assert!(!t.contains_key(1));
    assert_eq!(t.get(2), Some(&"b".to_string()));
    assert_eq!(t.duplicate().get(2), Some(&"b".to_string()));
}

#[test]
fn lists_are_stored_as_arrays() {
    assert_eq!(encode_list(&vec![1, 2, 3]), parse("[1,2,3]").unwrap());
    assert_eq!(encode_list(&vec![]), parse("[]").unwrap());
    assert_eq!(decode_list(&parse("[3,2,1]").unwrap()), Some(vec![3, 2, 1]));
    assert_eq!(decode_list(&parse("[]").unwrap()), Some(vec![]));
    assert_eq!(decode_list(&parse("[1,\"2\"]").unwrap()), None);
    assert_eq!(decode_list(&parse("{}").unwrap()), None);
    assert_eq!(decode_list(&Json::Null), None);
}

#[test]
fn maps_of_names_are_stored_as_objects() {
    let mut ids: Table<String> = Table::new();
    ids.insert(7, "n0-1".to_string());
    ids.insert(19, "n0-2".to_string());
    let j = encode_ids(&ids);
    assert_eq!(j, Json::Object(vec![
        ("7".to_string(), Json::Str("n0-1".to_string())),
        ("19".to_string(), Json::Str("n0-2".to_string())),
    ]));
    let back = decode_ids(&parse(r#"{"19":"n0-2","7":"n0-1"}"#).unwrap()).unwrap();
    assert_eq!(back.get(7), Some(&"n0-1".to_string()));
    assert_eq!(back.get(19), Some(&"n0-2".to_string()));
    assert_eq!(back.get(1), None);
    assert!(decode_ids(&parse(r#"{"x":"n0-2"}"#).unwrap()).is_none());
    assert!(decode_ids(&parse(r#"{"07":"n0-2"}"#).unwrap()).is_none());
    assert!(decode_ids(&parse(r#"{"7":7}"#).unwrap()).is_none());
    assert!(decode_ids(&parse(r#"[]"#).unwrap()).is_none());
    assert!(decode_ids(&parse(r#"{}"#).unwrap()).unwrap().entries.is_empty());
}

#[test]
fn a_shadowed_member_does_not_count() {
    let j = Json::Object(vec![
        ("7".to_string(), Json::Number(1)),
        ("7".to_string(), Json::Str("n0-1".to_string())),
    ]);
    assert_eq!(decode_ids(&j).unwrap().get(7), Some(&"n0-1".to_string()));
}

fn r(key: u64) -> Query {
    Query("r".to_string(), key, QueryValue::Read(None))
}

fn a(key: u64, v: u64) -> Query {
    Query("append".to_string(), key, QueryValue::Append(v))
}

#[test]
fn a_read_sees_the_appends_before_it() {
    let mut state: Table<Vec<u64>> = Table::new();
    state.insert(7, vec![1, 2]);
    let ops = vec![r(7), a(7, 3), r(7), a(8, 1), a(7, 4), r(8), r(7), r(9)];
    let out = apply(&ops, &mut state).unwrap();
    let expected = vec![
        Query("r".to_string(), 7, QueryValue::Read(Some(vec![1, 2]))),
        a(7, 3),
        Query("r".to_string(), 7, QueryValue::Read(Some(vec![1, 2, 3]))),
        a(8, 1),
        a(7, 4),
        Query("r".to_string(), 8, QueryValue::Read(Some(vec![1]))),
        Query("r".to_string(), 7, QueryValue::Read(Some(vec![1, 2, 3, 4]))),
        r(9),
    ];
    assert_eq!(out, expected);
    assert_eq!(state.get(7), Some(&vec![1, 2, 3, 4]));
    assert_eq!(state.get(8), Some(&vec![1]));
    assert_eq!(state.get(9), None);
}

#[test]
fn a_read_forgets_what_the_client_put_in_it() {
    let mut state: Table<Vec<u64>> = Table::new();
    let ops = vec![Query("r".to_string(), 1, QueryValue::Read(Some(vec![9])))];
    assert_eq!(apply(&ops, &mut state), Ok(vec![r(1)]));
    let ops = vec![Query("r".to_string(), 1, QueryValue::Append(9))];
    assert_eq!(apply(&ops, &mut state), Ok(vec![r(1)]));
}

#[test]
fn the_first_wrong_operation_decides() {
    let mut state: Table<Vec<u64>> = Table::new();
    let bad_value = Query("append".to_string(), 1, QueryValue::Read(None));
    let bad_op = Query("write".to_string(), 1, QueryValue::Append(1));
    assert_eq!(apply(&vec![a(1, 1), bad_value.clone(), bad_op.clone()], &mut state), Err(Fatal::WrongAppendValue));
    assert_eq!(apply(&vec![bad_op, bad_value], &mut state), Err(Fatal::WrongOperation));
    assert_eq!(apply(&vec![], &mut state), Ok(vec![]));
}

#[test]
fn keys_are_collected_once_in_order() {
    let ops = vec![r(40), a(7, 1), r(7), a(19, 2), a(7, 3), r(41)];
    assert_eq!(collect_keys(&ops), vec![40, 7, 19, 41]);
    assert_eq!(collect_written(&ops), vec![7, 19]);
    assert_eq!(collect_parts(&vec![40, 7, 19, 41, 20]), vec![2, 0, 1]);
    assert_eq!(PARTITION_WIDTH, 20);
}

#[test]
fn the_root_finds_chunks_through_partitions() {
    let reply = MessageExtra::KvReadOk(maelstrom_node::messages::KvReadOkExtra {
        value: parse(r#"{"0":"part-0-n0-2"}"#).unwrap(),
    });
    let mut root = Root::load(&reply).unwrap();
    assert_eq!(root.part_key(7), 0);
    assert_eq!(root.part_key(19), 0);
    assert_eq!(root.part_key(20), 1);
    assert_eq!(root.part_key(40), 2);
    assert_eq!(root.get(7), None);
    let part = MessageExtra::KvReadOk(maelstrom_node::messages::KvReadOkExtra {
        value: parse(r#"{"7":"n0-1"}"#).unwrap(),
    });
    assert_eq!(root.load_partition(0, &part), Ok(()));
    assert_eq!(root.get(7), Some(&"n0-1".to_string()));
    assert!(root.contains_key(7));
    assert!(!root.contains_key(8));
    assert!(!root.contains_key(27));
    let mut ids = IdGen::new();
    assert_eq!(root.next_part_id(2, "n0", &mut ids), Some("part-2-n0-1".to_string()));
    let mut saved: Table<String> = Table::new();
    saved.insert(8, "n0-5".to_string());
    saved.insert(47, "n0-6".to_string());
    let (writes, new_root) = root.save(&vec![8, 47], &saved, "n0", &mut ids).unwrap();
    assert_eq!(writes.len(), 2);
    assert_eq!(writes[0].0, "part-0-n0-2");
    assert_eq!(writes[0].1.get("7"), Some(&Json::Str("n0-1".to_string())));
    assert_eq!(writes[0].1.get("8"), Some(&Json::Str("n0-5".to_string())));
    assert_eq!(writes[1].0, "part-2-n0-3");
    assert_eq!(writes[1].1, Json::Object(vec![("47".to_string(), Json::Str("n0-6".to_string()))]));
    assert_eq!(new_root.get(0), Some(&"part-0-n0-2".to_string()));
    assert_eq!(new_root.get(2), Some(&"part-2-n0-3".to_string()));
}

#[test]
fn a_missing_root_is_an_empty_root() {
    let absent = MessageExtra::Error(maelstrom_node::messages::ErrorExtra {
        code: 20,
        text: String::new(),
    });
    let root = Root::load(&absent).unwrap();
    assert!(root.part_keys.entries.is_empty());
    let other = MessageExtra::Error(maelstrom_node::messages::ErrorExtra {
        code: 21,
        text: String::new(),
    });
    assert_eq!(Root::load(&other).err(), Some(Fatal::UnexpectedReply));
    assert_eq!(Root::load(&MessageExtra::KvWriteOk).err(), Some(Fatal::UnexpectedReply));
}

#[test]
fn a_transaction_walks_through_its_phases() {
    let mut ids = IdGen::new();
    let mut t = Transactor::new("n0");
    assert_eq!(t.phase(), Phase::Idle);
    assert_eq!(t.new_thunk_id(&mut ids), Some("n0-1".to_string()));
    match t.transact(&[a(7, 3)]) {
        Action::Call(MessageExtra::KvRead(read)) => assert_eq!(read.key, Json::Str("ROOT".to_string())),
        other => panic!("{:?}", other),
    }
    assert_eq!(t.phase(), Phase::LoadRoot);
    let absent = MessageExtra::Error(maelstrom_node::messages::ErrorExtra { code: 20, text: String::new() });
    match t.resume(&absent, &mut ids) {
        Action::Call(MessageExtra::KvWrite(w)) => {
            assert_eq!(w.key, Json::Str("n0-2".to_string()));
            assert_eq!(w.value, Json::Array(vec![Json::Number(3)]));
        }
        other => panic!("{:?}", other),
    }
    assert_eq!(t.phase(), Phase::WriteChunks);
    match t.resume(&MessageExtra::KvWriteOk, &mut ids) {
        Action::Call(MessageExtra::KvWrite(w)) => assert_eq!(w.key, Json::Str("part-0-n0-3".to_string())),
        other => panic!("{:?}", other),
    }
    assert_eq!(t.phase(), Phase::WritePartitions);
    match t.resume(&MessageExtra::KvWriteOk, &mut ids) {
        Action::Call(MessageExtra::KvCas(c)) => {
            assert_eq!(c.key, Json::Str("ROOT".to_string()));
            assert_eq!(c.from, Json::Object(vec![]));
            assert!(c.create_if_not_exists);
        }
        other => panic!("{:?}", other),
    }
    assert_eq!(t.phase(), Phase::CasRoot);
    match t.resume(&MessageExtra::KvCasOk, &mut ids) {
        Action::Reply(Ok(txn)) => assert_eq!(txn, vec![a(7, 3)]),
        other => panic!("{:?}", other),
    }
    assert_eq!(t.phase(), Phase::Committed);
    match t.resume(&MessageExtra::KvCasOk, &mut ids) {
        Action::Fail(f) => assert_eq!(f, Fatal::UnexpectedReply),
        other => panic!("{:?}", other),
    }
    assert_eq!(t.phase(), Phase::Failed);
    assert_eq!(ids.count(), 3);
}

#[test]
fn a_refused_write_ends_the_transaction() {
    let mut ids = IdGen::new();
    let mut t = Transactor::new("n0");
    t.transact(&[a(7, 3)]);
    let absent = MessageExtra::Error(maelstrom_node::messages::ErrorExtra { code: 20, text: String::new() });
    t.resume(&absent, &mut ids);
    match t.resume(&absent, &mut ids) {
        Action::Fail(f) => assert_eq!(f, Fatal::UnexpectedReply),
        other => panic!("{:?}", other),
    }
}

#[test]
fn a_cas_refused_for_another_reason_ends_the_transaction() {
    let mut ids = IdGen::new();
    let mut t = Transactor::new("n0");
    t.transact(&[a(7, 3)]);
    let absent = MessageExtra::Error(maelstrom_node::messages::ErrorExtra { code: 20, text: String::new() });
    t.resume(&absent, &mut ids);
    t.resume(&MessageExtra::KvWriteOk, &mut ids);
    t.resume(&MessageExtra::KvWriteOk, &mut ids);
    match t.resume(&absent, &mut ids) {
        Action::Fail(f) => assert_eq!(f, Fatal::UnexpectedReply),
        other => panic!("{:?}", other),
    }
}

#[test]
fn init_gives_the_node_its_name() {
    let mut node = Node::new();
    let req = from("c0", Some(1), MessageExtra::Init(InitRequestExtra {
        node_id: "n1".to_string(),
        node_ids: vec!["n1".to_string(), "n2".to_string()],
    }));
    assert!(InitHandler.can_handle(&req));
    assert!(!InitOkHandler.can_handle(&req));
    assert_eq!(InitHandler.handle(&mut node, &req), Some(MessageExtra::InitOk));
    assert_eq!(node.id, "n1");
    assert_eq!(node.node_ids, vec!["n1".to_string(), "n2".to_string()]);
    assert_eq!(InitOkHandler.handle(&mut node, &req), None);
    assert_eq!(EchoHandler.handle(&mut node, &req), None);
}

#[test]
fn the_answer_swaps_sender_and_receiver() {
    let mut node = Node::new();
    let req = from("c0", Some(5), MessageExtra::Echo(EchoRequestExtra { echo: "hi".to_string() }));
    let out = node.handle_message(req);
    assert_eq!(out, vec![Message {
        src: "n1".to_string(),
        dest: "c0".to_string(),
        body: MessageBody {
            msg_id: Some(0),
            in_reply_to: Some(5),
            extra: MessageExtra::EchoOk(EchoResponseExtra { echo: "hi".to_string() }),
        },
    }]);
    let out = node.handle_message(from("c0", Some(6), MessageExtra::Echo(EchoRequestExtra { echo: "ho".to_string() })));
    assert_eq!(out[0].body.msg_id, Some(1));
    assert_eq!(node.next_msg_id(), 2);
    assert_eq!(node.next_msg_id(), 3);
}

#[test]
fn a_request_without_msg_id_gets_no_answer() {
    let mut node = Node::new();
    let out = node.handle_message(from("c0", None, MessageExtra::Echo(EchoRequestExtra { echo: "hi".to_string() })));
    assert!(out.is_empty());
}

#[test]
fn a_payload_without_handler_is_dropped() {
    let mut node = Node::new();
    for extra in [MessageExtra::KvCasOk, MessageExtra::KvWriteOk, MessageExtra::InitOk, MessageExtra::TxnOk(maelstrom_node::messages::TxnResponseExtra { txn: vec![] })] {
        assert!(node.handle_message(from("c0", Some(1), extra)).is_empty());
    }
    assert_eq!(node.fault, None);
    assert_eq!(node.msg_id, 0);
}

#[test]
fn generate_answers_with_an_identifier() {
    let mut node = Node::new();
    let req = from("c0", Some(1), MessageExtra::Generate);
    let first = GenerateHandler.handle(&mut node, &req);
    let second = GenerateHandler.handle(&mut node, &req);
    match (first, second) {
        (Some(MessageExtra::GenerateOk(a)), Some(MessageExtra::GenerateOk(b))) => {
            assert!(!a.id.is_empty());
            assert_ne!(a.id, b.id);
        }
        other => panic!("{:?}", other),
    }
}

#[test]
fn a_new_broadcast_value_goes_to_the_neighbours_but_the_sender() {
    let mut node = Node::new();
    node.id = "n1".to_string();
    let topology = from("c0", Some(1), MessageExtra::Topology(TopologyRequestExtra {
        topology: vec![
            ("n1".to_string(), vec!["n2".to_string(), "n3".to_string(), "n4".to_string()]),
            ("n2".to_string(), vec!["n1".to_string()]),
        ],
    }));
    assert_eq!(TopologyHandler.handle(&mut node, &topology), Some(MessageExtra::TopologyOk));
    let req = from("n3", Some(9), MessageExtra::Broadcast(BroadcastRequestExtra { message: 42 }));
    let out = node.handle_message(req.clone());
    assert_eq!(out.len(), 3);
    assert_eq!((out[0].dest.as_str(), out[0].body.msg_id), ("n2", Some(0)));
    assert_eq!((out[1].dest.as_str(), out[1].body.msg_id), ("n4", Some(1)));
    assert_eq!(out[0].src, "n1");
    assert_eq!(out[0].body.extra, MessageExtra::Broadcast(BroadcastRequestExtra { message: 42 }));
    assert_eq!(out[2].dest, "n3");
    assert_eq!(out[2].body.extra, MessageExtra::BroadcastOk);
    assert_eq!(out[2].body.in_reply_to, Some(9));
    assert_eq!(node.messages_seen, vec![42]);
    assert_eq!(node.unacked.get(0), Some(&out[0]));
    assert_eq!(node.unacked.get(1), Some(&out[1]));
    let again = node.handle_message(req);
    assert_eq!(again.len(), 1);
    assert_eq!(again[0].body.extra, MessageExtra::BroadcastOk);
    assert_eq!(node.messages_seen, vec![42]);
    let ack = Message {
        src: "n2".to_string(),
        dest: "n1".to_string(),
        body: MessageBody { msg_id: Some(1), in_reply_to: Some(0), extra: MessageExtra::BroadcastOk },
    };
    assert!(BroadcastOkHandler.can_handle(&ack));
    assert!(node.handle_message(ack).is_empty());
    assert_eq!(node.unacked.get(0), None);
    assert!(node.unacked.get(1).is_some());
    let read = node.handle_message(from("c0", Some(2), MessageExtra::Read));
    assert_eq!(read[0].body.extra, MessageExtra::ReadOk(ReadResponseExtra { messages: vec![42] }));
    assert!(ReadHandler.can_handle(&from("c0", None, MessageExtra::Read)));
    assert!(BroadcastHandler.can_handle(&from("c0", None, MessageExtra::Broadcast(BroadcastRequestExtra { message: 1 }))));
}

#[test]
fn a_transaction_request_starts_a_call() {
    let mut node = Node::new();
    node.id = "n1".to_string();
    let req = from("c0", Some(1), MessageExtra::Txn(maelstrom_node::messages::TxnRequestExtra { txn: vec![r(1)] }));
    assert!(TxnHandler.can_handle(&req));
    assert_eq!(TxnHandler.handle(&mut node, &req), None);
    assert_eq!(node.pending.len(), 1);
    assert_eq!(node.pending[0].awaiting, 0);
    assert_eq!(node.pending[0].client, "c0");
    assert_eq!(node.outbox.len(), 1);
    assert_eq!(node.outbox[0].dest, "lin-kv");
    assert_eq!(node.sync_rpc("lin-kv", MessageExtra::KvWriteOk), 1);
    assert_eq!(node.outbox.len(), 2);
}

#[test]
fn a_lazy_value_is_there_once_loaded() {
    let mut v: LazyValue<u64> = LazyValue::default();
    assert_eq!(v.value(), None);
    assert!(v.value_mut().is_none());
    assert_eq!(v.get_or_insert_with(|| LazyValue::Loaded(5)), Some(&5));
    assert_eq!(v.get_or_insert_with(|| LazyValue::Loaded(6)), Some(&5));
    *v.value_mut().unwrap() = 7;
    assert_eq!(v.value(), Some(&7));
    let mut failed: LazyValue<u64> = LazyValue::LoadFailed;
    assert_eq!(failed.get_or_insert_with(|| LazyValue::Loaded(6)), None);
    let mut unloaded: LazyValue<u64> = LazyValue::UnLoaded;
    assert_eq!(unloaded.get_or_insert_with(|| LazyValue::LoadFailed), None);
    assert!(matches!(unloaded, LazyValue::LoadFailed));
}

#[test]
fn a_thunk_gets_a_fresh_name_with_its_first_change() {
    let mut ids = IdGen::new();
    let mut t: Thunk<Vec<u64>> = Thunk::new();
    assert!(!t.dirty());
    assert!(t.save_request().is_none());
    assert_eq!(t.id("n0", &mut ids), Some("n0-1".to_string()));
    assert_eq!(t.id("n0", &mut ids), Some("n0-1".to_string()));
    t.set_value(vec![1], "n0", &mut ids);
    assert!(t.dirty());
    assert_eq!(t.id("n0", &mut ids), Some("n0-2".to_string()));
    t.set_value(vec![1, 2], "n0", &mut ids);
    assert_eq!(t.id("n0", &mut ids), Some("n0-2".to_string()));
    assert_eq!(t.value(), Some(&vec![1, 2]));
    match t.save_request() {
        Some(MessageExtra::KvWrite(w)) => {
            assert_eq!(w.key, Json::Str("n0-2".to_string()));
            assert_eq!(w.value, parse("[1,2]").unwrap());
        }
        other => panic!("{:?}", other),
    }
    assert_eq!(t.save(MessageExtra::KvCasOk), Err(MessageExtra::KvCasOk));
    assert!(t.dirty());
    assert_eq!(t.save(MessageExtra::KvWriteOk), Ok(()));
    assert!(!t.dirty());
    assert_eq!(t.save(MessageExtra::KvCasOk), Ok(()));
    assert!(t.merge(|mut v| { v.push(3); (v, true) }, "n0", &mut ids));
    assert!(t.dirty());
    assert_eq!(t.id("n0", &mut ids), Some("n0-3".to_string()));
    assert_eq!(t.value(), Some(&vec![1, 2, 3]));
    assert!(t.merge(|v| (v, false), "n0", &mut ids));
    assert_eq!(t.id("n0", &mut ids), Some("n0-3".to_string()));
    assert_eq!(t.to_json(), parse("[1,2,3]").unwrap());
    let mut empty: Thunk<Vec<u64>> = Thunk::default();
    assert!(!empty.merge(|v| (v, true), "n0", &mut ids));
    assert_eq!(empty.to_json(), Json::Null);
    assert_eq!(Thunk::<Vec<u64>>::from_json(&parse("[4]").unwrap()), Some(vec![4]));
    assert_eq!(Thunk::<Vec<u64>>::from_json(&parse("{}").unwrap()), None);
}

#[test]
fn a_thunk_loads_its_value_once() {
    let mut ids = IdGen::new();
    let mut t: Thunk<Vec<u64>> = Thunk::new();
    t.id = LazyValue::Loaded("n0-9".to_string());
    match t.load_request("n0", &mut ids) {
        Some(MessageExtra::KvRead(read)) => assert_eq!(read.key, Json::Str("n0-9".to_string())),
        other => panic!("{:?}", other),
    }
    assert!(t.load_request("n0", &mut ids).is_none());
    t.load(&MessageExtra::KvReadOk(maelstrom_node::messages::KvReadOkExtra { value: parse("[1,2]").unwrap() }));
    assert_eq!(t.value(), Some(&vec![1, 2]));
    t.load(&MessageExtra::KvWriteOk);
    assert_eq!(t.value(), Some(&vec![1, 2]));
    assert_eq!(ids.count(), 0);
    let mut lost: Thunk<Vec<u64>> = Thunk::new();
    assert!(lost.load_request("n0", &mut ids).is_some());
    assert_eq!(ids.count(), 1);
    lost.load(&MessageExtra::Error(maelstrom_node::messages::ErrorExtra { code: 20, text: String::new() }));
    assert_eq!(lost.value(), None);
    assert!(matches!(lost.value, LazyValue::LoadFailed));
}

use maelstrom_node::codec::{
    decode_message, emit_message, encode_message, parse_message, FrameError,
};
use maelstrom_node::json::{parse, render, Json};
use maelstrom_node::messages::{
    BroadcastRequestExtra, EchoRequestExtra, ErrorExtra, GenerateResponseExtra,
    InitRequestExtra, KvCasData, KvReadExtra, KvReadOkExtra, KvWriteExtra, Message, MessageBody,
    MessageExtra, Query, QueryValue, ReadResponseExtra, TopologyRequestExtra, TxnRequestExtra,
    TxnResponseExtra, EchoResponseExtra,
};

fn envelope(msg_id: Option<u64>, in_reply_to: Option<u64>, extra: MessageExtra) -> Message {
    Message {
        src: "a".to_string(),
        dest: "b".to_string(),
        body: MessageBody { msg_id, in_reply_to, extra },
    }
}

fn every_payload() -> Vec<MessageExtra> {
    vec![
        MessageExtra::Error(ErrorExtra { code: 22, text: "no".to_string() }),
        MessageExtra::Init(InitRequestExtra {
            node_id: "n1".to_string(),
            node_ids: vec!["n1".to_string(), "n2".to_string()],
        }),
        MessageExtra::InitOk,
        MessageExtra::Echo(EchoRequestExtra { echo: "hello \"there\"".to_string() }),
        MessageExtra::EchoOk(EchoResponseExtra { echo: "hello".to_string() }),
        MessageExtra::Generate,
        MessageExtra::GenerateOk(GenerateResponseExtra { id: "x-1".to_string() }),
        MessageExtra::Topology(TopologyRequestExtra {
            topology: vec![
                ("n1".to_string(), vec!["n2".to_string()]),
                ("n2".to_string(), vec!["n1".to_string(), "n3".to_string()]),
            ],
        }),
        MessageExtra::TopologyOk,
        MessageExtra::Broadcast(BroadcastRequestExtra { message: u64::MAX }),
        MessageExtra::BroadcastOk,
        MessageExtra::Read,
        MessageExtra::ReadOk(ReadResponseExtra { messages: vec![3, 1, 2] }),
        MessageExtra::Txn(TxnRequestExtra {
            txn: vec![
                Query("r".to_string(), 7, QueryValue::Read(None)),
                Query("append".to_string(), 7, QueryValue::Append(3)),
            ],
        }),
        MessageExtra::TxnOk(TxnResponseExtra {
            txn: vec![
                Query("r".to_string(), 7, QueryValue::Read(Some(vec![1, 2]))),
                Query("r".to_string(), 8, QueryValue::Read(Some(vec![]))),
                Query("append".to_string(), 7, QueryValue::Append(3)),
            ],
        }),
        MessageExtra::KvRead(KvReadExtra { key: Json::Str("ROOT".to_string()) }),
        MessageExtra::KvReadOk(KvReadOkExtra { value: Json::Array(vec![Json::Number(1)]) }),
        MessageExtra::KvReadOk(KvReadOkExtra { value: Json::Null }),
        MessageExtra::KvWrite(KvWriteExtra {
            key: Json::Str("n0-1".to_string()),
            value: Json::Array(vec![]),
        }),
        MessageExtra::KvWriteOk,
        MessageExtra::KvCas(KvCasData {
            key: Json::Str("ROOT".to_string()),
            from: Json::Object(vec![]),
            to: Json::Object(vec![("0".to_string(), Json::Str("part-0-n0-2".to_string()))]),
            create_if_not_exists: true,
        }),
        MessageExtra::KvCasOk,
    ]
}

#[test]
fn every_payload_survives_the_wire() {
    for extra in every_payload() {
        for (msg_id, in_reply_to) in [(None, None), (Some(0), None), (None, Some(9)), (Some(3), Some(4))] {
            let message = envelope(msg_id, in_reply_to, extra.clone());
            let line = emit_message(&message).unwrap();
            assert!(!line.contains('\n'));
            assert_eq!(parse_message(&line), Ok(message.clone()));
            assert_eq!(decode_message(&encode_message(&message)), Some(message));
        }
    }
}

#[test]
fn a_frame_read_and_written_again_reads_the_same() {
    let line = r#"{"dest":"n0","body":{"txn":[["r",7,null],["append",7,3]],"msg_id":1,"type":"txn","extra":true},"src":"c1","id":4}"#;
    let message = parse_message(line).unwrap();
    assert_eq!(message.src, "c1");
    assert_eq!(message.dest, "n0");
    assert_eq!(message.body.msg_id, Some(1));
    assert_eq!(message.body.in_reply_to, None);
    let again = emit_message(&message).unwrap();
    assert_eq!(parse_message(&again), Ok(message));
    let frame = parse(&again).unwrap();
    assert_eq!(frame.get("body").unwrap().get("type"), Some(&Json::Str("txn".to_string())));
    assert_eq!(frame.get("body").unwrap().get("in_reply_to"), None);
}

#[test]
fn msg_id_and_in_reply_to_are_left_out_when_absent() {
    let line = emit_message(&envelope(None, None, MessageExtra::InitOk)).unwrap();
    assert_eq!(line, r#"{"body":{"type":"init_ok"},"dest":"b","src":"a"}"#);
    let line = emit_message(&envelope(Some(1), Some(2), MessageExtra::InitOk)).unwrap();
    assert_eq!(line, r#"{"body":{"in_reply_to":2,"msg_id":1,"type":"init_ok"},"dest":"b","src":"a"}"#);
}

#[test]
fn a_null_msg_id_reads_as_absent() {
    let line = r#"{"src":"a","dest":"b","body":{"type":"init_ok","msg_id":null}}"#;
    assert_eq!(parse_message(line), Ok(envelope(None, None, MessageExtra::InitOk)));
}

#[test]
fn sixty_four_bits_survive() {
    let line = r#"{"src":"a","dest":"b","body":{"type":"broadcast","message":18446744073709551615}}"#;
    let message = parse_message(line).unwrap();
    assert_eq!(
        message.body.extra,
        MessageExtra::Broadcast(BroadcastRequestExtra { message: 18446744073709551615 })
    );
    assert!(emit_message(&message).unwrap().contains("18446744073709551615"));
}

#[test]
fn what_is_no_json_is_a_syntax_error() {
    assert_eq!(parse_message("{"), Err(FrameError::Syntax));
    assert_eq!(parse_message(""), Err(FrameError::Syntax));
    assert_eq!(parse_message("nonsense"), Err(FrameError::Syntax));
}

#[test]
fn a_number_beyond_the_protocol_is_a_syntax_error() {
    assert_eq!(
        parse_message(r#"{"src":"a","dest":"b","body":{"type":"broadcast","message":-1}}"#),
        Err(FrameError::Syntax)
    );
    assert_eq!(
        parse_message(r#"{"src":"a","dest":"b","body":{"type":"broadcast","message":1.5}}"#),
        Err(FrameError::Syntax)
    );
    assert_eq!(parse("18446744073709551616"), None);
    assert_eq!(parse("18446744073709551615"), Some(Json::Number(u64::MAX)));
}

#[test]
fn an_unknown_type_is_a_shape_error() {
    assert_eq!(
        parse_message(r#"{"src":"a","dest":"b","body":{"type":"dance"}}"#),
        Err(FrameError::Shape)
    );
}

#[test]
fn a_missing_member_is_a_shape_error() {
    for line in [
        r#"{"dest":"b","body":{"type":"init_ok"}}"#,
        r#"{"src":"a","body":{"type":"init_ok"}}"#,
        r#"{"src":"a","dest":"b"}"#,
        r#"{"src":"a","dest":"b","body":{}}"#,
        r#"{"src":"a","dest":"b","body":{"type":"echo"}}"#,
        r#"{"src":"a","dest":"b","body":{"type":"init","node_id":"n1"}}"#,
        r#"{"src":"a","dest":"b","body":{"type":"error","code":"22","text":"x"}}"#,
        r#"{"src":"a","dest":"b","body":{"type":"init_ok","msg_id":"1"}}"#,
        r#"{"src":"a","dest":"b","body":{"type":"txn","txn":[["r",7]]}}"#,
        r#"{"src":"a","dest":"b","body":{"type":"txn","txn":[["r",7,null,null]]}}"#,
        r#"{"src":"a","dest":"b","body":{"type":"txn","txn":[["r","7",null]]}}"#,
        r#"{"src":"a","dest":"b","body":{"type":"txn","txn":[["r",7,"x"]]}}"#,
        r#"{"src":"a","dest":"b","body":{"type":"cas","key":"ROOT","from":{},"to":{}}}"#,
        r#"{"src":"a","dest":"b","body":{"type":"write","key":"k"}}"#,
        r#"{"src":"a","dest":"b","body":{"type":"topology","topology":{"n1":[1]}}}"#,
        r#"[1,2]"#,
    ] {
        assert_eq!(parse_message(line), Err(FrameError::Shape), "{}", line);
    }
}

#[test]
fn a_read_with_a_key_is_for_the_service() {
    let with = parse_message(r#"{"src":"a","dest":"b","body":{"type":"read","key":"ROOT"}}"#);
    assert_eq!(
        with.unwrap().body.extra,
        MessageExtra::KvRead(KvReadExtra { key: Json::Str("ROOT".to_string()) })
    );
    let without = parse_message(r#"{"src":"a","dest":"b","body":{"type":"read"}}"#);
    assert_eq!(without.unwrap().body.extra, MessageExtra::Read);
    let ok = parse_message(r#"{"src":"a","dest":"b","body":{"type":"read_ok","value":[1]}}"#);
    assert_eq!(
        ok.unwrap().body.extra,
        MessageExtra::KvReadOk(KvReadOkExtra { value: Json::Array(vec![Json::Number(1)]) })
    );
    let seen = parse_message(r#"{"src":"a","dest":"b","body":{"type":"read_ok","messages":[1]}}"#);
    assert_eq!(
        seen.unwrap().body.extra,
        MessageExtra::ReadOk(ReadResponseExtra { messages: vec![1] })
    );
}

#[test]
fn json_text_is_read_value_by_value() {
    let j = parse(r#" {"a": [1, "two", null, true, {"b": false}], "c": {}} "#).unwrap();
    let a = j.get("a").unwrap().as_array().unwrap();
    assert_eq!(a.len(), 5);
    assert_eq!(a[0].as_u64(), Some(1));
    assert_eq!(a[1].as_str(), Some("two"));
    assert!(a[2].is_null());
    assert_eq!(a[3].as_bool(), Some(true));
    assert_eq!(a[4].get("b").unwrap().as_bool(), Some(false));
    assert_eq!(j.get("c").unwrap().as_object().unwrap().len(), 0);
    assert_eq!(j.get("d"), None);
    assert_eq!(a[0].get("a"), None);
}

#[test]
fn json_is_written_on_one_line() {
    let j = Json::Object(vec![
        ("b".to_string(), Json::Array(vec![Json::Number(1), Json::Null, Json::Bool(false)])),
        ("a".to_string(), Json::Str("x\ny".to_string())),
    ]);
    assert_eq!(render(&j).unwrap(), r#"{"a":"x\ny","b":[1,null,false]}"#);
    assert_eq!(parse(&render(&j).unwrap()).unwrap().get("a"), Some(&Json::Str("x\ny".to_string())));
}

#[test]
fn a_later_member_replaces_an_earlier_one_of_the_same_name() {
    let j = Json::Object(vec![
        ("a".to_string(), Json::Number(1)),
        ("a".to_string(), Json::Number(2)),
    ]);
    assert_eq!(j.get("a"), Some(&Json::Number(2)));
    assert_eq!(render(&j).unwrap(), r#"{"a":2}"#);
    assert_eq!(parse(r#"{"a":1,"a":2}"#).unwrap().get("a"), Some(&Json::Number(2)));
}

#[test]
fn a_copy_of_a_json_value_is_equal_to_it() {
    let j = parse(r#"{"a":[1,{"b":[null,"x"]}],"c":true}"#).unwrap();
    assert_eq!(j.duplicate(), j);
    assert_eq!(j.clone(), j);
}

//! The wire form of messages: one JSON object per message, with the
//! payload's members next to `type`, `msg_id` and `in_reply_to` in the
//! body.
use crate::fields::{
    decode_queries, decode_texts, decode_topology, encode_queries, encode_texts,
    encode_topology, flag_at, get_flag, get_number, get_optional_number, get_text, json_queries,
    json_texts, json_topology, lemma_queries_round_trip, lemma_texts_round_trip,
    lemma_topology_round_trip, number_at, optional_number_at, queries_json, text_at, texts_json,
    topology_json,
};
use crate::json::{members_view, parse, put, render, text_content, content_text, Json, JsonValue};
use crate::messages::{
    queries_view, texts, topology_view, BodyView, BroadcastRequestExtra, EchoRequestExtra,
    EchoResponseExtra, ErrorExtra, ExtraView, GenerateResponseExtra, InitRequestExtra, KvCasData,
    KvReadExtra, KvReadOkExtra, KvWriteExtra, Message, MessageBody, MessageExtra, MessageView,
    ReadResponseExtra, TopologyRequestExtra, TxnRequestExtra, TxnResponseExtra,
};
use crate::storage::{decode_list, encode_list, json_list, lemma_list_round_trip, list_json};
use crate::text::same_text;
use vstd::prelude::*;
use vstd::string::*;

verus! {

/// The member name `src`.
pub open spec fn k_src() -> Seq<char> {
    seq!['s', 'r', 'c']
}

/// The member name `dest`.
pub open spec fn k_dest() -> Seq<char> {
    seq!['d', 'e', 's', 't']
}

/// The member name `body`.
pub open spec fn k_body() -> Seq<char> {
    seq!['b', 'o', 'd', 'y']
}

/// The member name `type`.
pub open spec fn k_type() -> Seq<char> {
    seq!['t', 'y', 'p', 'e']
}

/// The member name `msg_id`.
pub open spec fn k_msg_id() -> Seq<char> {
    seq!['m', 's', 'g', '_', 'i', 'd']
}

/// The member name `in_reply_to`.
pub open spec fn k_in_reply_to() -> Seq<char> {
    seq!['i', 'n', '_', 'r', 'e', 'p', 'l', 'y', '_', 't', 'o']
}

/// The member name `code`.
pub open spec fn k_code() -> Seq<char> {
    seq!['c', 'o', 'd', 'e']
}

/// The member name `text`.
pub open spec fn k_text() -> Seq<char> {
    seq!['t', 'e', 'x', 't']
}

/// The member name `node_id`.
pub open spec fn k_node_id() -> Seq<char> {
    seq!['n', 'o', 'd', 'e', '_', 'i', 'd']
}

/// The member name `node_ids`.
pub open spec fn k_node_ids() -> Seq<char> {
    seq!['n', 'o', 'd', 'e', '_', 'i', 'd', 's']
}

/// The member name `echo`.
pub open spec fn k_echo() -> Seq<char> {
    seq!['e', 'c', 'h', 'o']
}

/// The member name `id`.
pub open spec fn k_id() -> Seq<char> {
    seq!['i', 'd']
}

/// The member name `topology`.
pub open spec fn k_topology() -> Seq<char> {
    seq!['t', 'o', 'p', 'o', 'l', 'o', 'g', 'y']
}

/// The member name `message`.
pub open spec fn k_message() -> Seq<char> {
    seq!['m', 'e', 's', 's', 'a', 'g', 'e']
}

/// The member name `messages`.
pub open spec fn k_messages() -> Seq<char> {
    seq!['m', 'e', 's', 's', 'a', 'g', 'e', 's']
}

/// The member name `txn`.
pub open spec fn k_txn() -> Seq<char> {
    seq!['t', 'x', 'n']
}

/// The member name `key`.
pub open spec fn k_key() -> Seq<char> {
    seq!['k', 'e', 'y']
}

/// The member name `value`.
pub open spec fn k_value() -> Seq<char> {
    seq!['v', 'a', 'l', 'u', 'e']
}

/// The member name `from`.
pub open spec fn k_from() -> Seq<char> {
    seq!['f', 'r', 'o', 'm']
}

/// The member name `to`.
pub open spec fn k_to() -> Seq<char> {
    seq!['t', 'o']
}

/// The member name `create_if_not_exists`.
pub open spec fn k_create_if_not_exists() -> Seq<char> {
    seq!['c', 'r', 'e', 'a', 't', 'e', '_', 'i', 'f', '_', 'n', 'o', 't', '_', 'e', 'x', 'i', 's', 't', 's']
}

/// The `type` of `error` messages.
pub open spec fn t_error() -> Seq<char> {
    seq!['e', 'r', 'r', 'o', 'r']
}

/// The `type` of `init` messages.
pub open spec fn t_init() -> Seq<char> {
    seq!['i', 'n', 'i', 't']
}

/// The `type` of `init_ok` messages.
pub open spec fn t_init_ok() -> Seq<char> {
    seq!['i', 'n', 'i', 't', '_', 'o', 'k']
}

/// The `type` of `echo` messages.
pub open spec fn t_echo() -> Seq<char> {
    seq!['e', 'c', 'h', 'o']
}

/// The `type` of `echo_ok` messages.
pub open spec fn t_echo_ok() -> Seq<char> {
    seq!['e', 'c', 'h', 'o', '_', 'o', 'k']
}

/// The `type` of `generate` messages.
pub open spec fn t_generate() -> Seq<char> {
    seq!['g', 'e', 'n', 'e', 'r', 'a', 't', 'e']
}

/// The `type` of `generate_ok` messages.
pub open spec fn t_generate_ok() -> Seq<char> {
    seq!['g', 'e', 'n', 'e', 'r', 'a', 't', 'e', '_', 'o', 'k']
}

/// The `type` of `topology` messages.
pub open spec fn t_topology() -> Seq<char> {
    seq!['t', 'o', 'p', 'o', 'l', 'o', 'g', 'y']
}

/// The `type` of `topology_ok` messages.
pub open spec fn t_topology_ok() -> Seq<char> {
    seq!['t', 'o', 'p', 'o', 'l', 'o', 'g', 'y', '_', 'o', 'k']
}

/// The `type` of `broadcast` messages.
pub open spec fn t_broadcast() -> Seq<char> {
    seq!['b', 'r', 'o', 'a', 'd', 'c', 'a', 's', 't']
}

/// The `type` of `broadcast_ok` messages.
pub open spec fn t_broadcast_ok() -> Seq<char> {
    seq!['b', 'r', 'o', 'a', 'd', 'c', 'a', 's', 't', '_', 'o', 'k']
}

/// The `type` of `read` messages.
pub open spec fn t_read() -> Seq<char> {
    seq!['r', 'e', 'a', 'd']
}

/// The `type` of `read_ok` messages.
pub open spec fn t_read_ok() -> Seq<char> {
    seq!['r', 'e', 'a', 'd', '_', 'o', 'k']
}

/// The `type` of `txn` messages.
pub open spec fn t_txn() -> Seq<char> {
    seq!['t', 'x', 'n']
}

/// The `type` of `txn_ok` messages.
pub open spec fn t_txn_ok() -> Seq<char> {
    seq!['t', 'x', 'n', '_', 'o', 'k']
}

/// The `type` of `write` messages.
pub open spec fn t_write() -> Seq<char> {
    seq!['w', 'r', 'i', 't', 'e']
}

/// The `type` of `write_ok` messages.
pub open spec fn t_write_ok() -> Seq<char> {
    seq!['w', 'r', 'i', 't', 'e', '_', 'o', 'k']
}

/// The `type` of `cas` messages.
pub open spec fn t_cas() -> Seq<char> {
    seq!['c', 'a', 's']
}

/// The `type` of `cas_ok` messages.
pub open spec fn t_cas_ok() -> Seq<char> {
    seq!['c', 'a', 's', '_', 'o', 'k']
}

/// The length and the first two characters of each member name: no two
/// names agree in all three.
pub proof fn lemma_names()
    ensures
        k_src().len() == 3 && k_src()[0] == 's' && k_src()[1] == 'r',
        k_dest().len() == 4 && k_dest()[0] == 'd' && k_dest()[1] == 'e',
        k_body().len() == 4 && k_body()[0] == 'b' && k_body()[1] == 'o',
        k_type().len() == 4 && k_type()[0] == 't' && k_type()[1] == 'y',
        k_msg_id().len() == 6 && k_msg_id()[0] == 'm' && k_msg_id()[1] == 's',
        k_in_reply_to().len() == 11 && k_in_reply_to()[0] == 'i' && k_in_reply_to()[1] == 'n',
        k_code().len() == 4 && k_code()[0] == 'c' && k_code()[1] == 'o',
        k_text().len() == 4 && k_text()[0] == 't' && k_text()[1] == 'e',
        k_node_id().len() == 7 && k_node_id()[0] == 'n' && k_node_id()[1] == 'o',
        k_node_ids().len() == 8 && k_node_ids()[0] == 'n' && k_node_ids()[1] == 'o',
        k_echo().len() == 4 && k_echo()[0] == 'e' && k_echo()[1] == 'c',
        k_id().len() == 2 && k_id()[0] == 'i' && k_id()[1] == 'd',
        k_topology().len() == 8 && k_topology()[0] == 't' && k_topology()[1] == 'o',
        k_message().len() == 7 && k_message()[0] == 'm' && k_message()[1] == 'e',
        k_messages().len() == 8 && k_messages()[0] == 'm' && k_messages()[1] == 'e',
        k_txn().len() == 3 && k_txn()[0] == 't' && k_txn()[1] == 'x',
        k_key().len() == 3 && k_key()[0] == 'k' && k_key()[1] == 'e',
        k_value().len() == 5 && k_value()[0] == 'v' && k_value()[1] == 'a',
        k_from().len() == 4 && k_from()[0] == 'f' && k_from()[1] == 'r',
        k_to().len() == 2 && k_to()[0] == 't' && k_to()[1] == 'o',
        k_create_if_not_exists().len() == 20 && k_create_if_not_exists()[0] == 'c' && k_create_if_not_exists()[1] == 'r',
{
}

/// The length and the first character of each `type`: no two agree in
/// both.
pub proof fn lemma_types()
    ensures
        t_error().len() == 5 && t_error()[0] == 'e',
        t_init().len() == 4 && t_init()[0] == 'i',
        t_init_ok().len() == 7 && t_init_ok()[0] == 'i',
        t_echo().len() == 4 && t_echo()[0] == 'e',
        t_echo_ok().len() == 7 && t_echo_ok()[0] == 'e',
        t_generate().len() == 8 && t_generate()[0] == 'g',
        t_generate_ok().len() == 11 && t_generate_ok()[0] == 'g',
        t_topology().len() == 8 && t_topology()[0] == 't',
        t_topology_ok().len() == 11 && t_topology_ok()[0] == 't',
        t_broadcast().len() == 9 && t_broadcast()[0] == 'b',
        t_broadcast_ok().len() == 12 && t_broadcast_ok()[0] == 'b',
        t_read().len() == 4 && t_read()[0] == 'r',
        t_read_ok().len() == 7 && t_read_ok()[0] == 'r',
        t_txn().len() == 3 && t_txn()[0] == 't',
        t_txn_ok().len() == 6 && t_txn_ok()[0] == 't',
        t_write().len() == 5 && t_write()[0] == 'w',
        t_write_ok().len() == 8 && t_write_ok()[0] == 'w',
        t_cas().len() == 3 && t_cas()[0] == 'c',
        t_cas_ok().len() == 6 && t_cas_ok()[0] == 'c',
{
}

fn s_src() -> (s: &'static str)
    ensures
        s@ == k_src(),
{
    proof {
        reveal_strlit("src");
        assert("src"@ =~= k_src());
    }
    "src"
}

fn s_dest() -> (s: &'static str)
    ensures
        s@ == k_dest(),
{
    proof {
        reveal_strlit("dest");
        assert("dest"@ =~= k_dest());
    }
    "dest"
}

fn s_body() -> (s: &'static str)
    ensures
        s@ == k_body(),
{
    proof {
        reveal_strlit("body");
        assert("body"@ =~= k_body());
    }
    "body"
}

fn s_type() -> (s: &'static str)
    ensures
        s@ == k_type(),
{
    proof {
        reveal_strlit("type");
        assert("type"@ =~= k_type());
    }
    "type"
}

fn s_msg_id() -> (s: &'static str)
    ensures
        s@ == k_msg_id(),
{
    proof {
        reveal_strlit("msg_id");
        assert("msg_id"@ =~= k_msg_id());
    }
    "msg_id"
}

fn s_in_reply_to() -> (s: &'static str)
    ensures
        s@ == k_in_reply_to(),
{
    proof {
        reveal_strlit("in_reply_to");
        assert("in_reply_to"@ =~= k_in_reply_to());
    }
    "in_reply_to"
}

fn s_code() -> (s: &'static str)
    ensures
        s@ == k_code(),
{
    proof {
        reveal_strlit("code");
        assert("code"@ =~= k_code());
    }
    "code"
}

fn s_text() -> (s: &'static str)
    ensures
        s@ == k_text(),
{
    proof {
        reveal_strlit("text");
        assert("text"@ =~= k_text());
    }
    "text"
}

fn s_node_id() -> (s: &'static str)
    ensures
        s@ == k_node_id(),
{
    proof {
        reveal_strlit("node_id");
        assert("node_id"@ =~= k_node_id());
    }
    "node_id"
}

fn s_node_ids() -> (s: &'static str)
    ensures
        s@ == k_node_ids(),
{
    proof {
        reveal_strlit("node_ids");
        assert("node_ids"@ =~= k_node_ids());
    }
    "node_ids"
}

fn s_echo() -> (s: &'static str)
    ensures
        s@ == k_echo(),
{
    proof {
        reveal_strlit("echo");
        assert("echo"@ =~= k_echo());
    }
    "echo"
}

fn s_id() -> (s: &'static str)
    ensures
        s@ == k_id(),
{
    proof {
        reveal_strlit("id");
        assert("id"@ =~= k_id());
    }
    "id"
}

fn s_topology() -> (s: &'static str)
    ensures
        s@ == k_topology(),
{
    proof {
        reveal_strlit("topology");
        assert("topology"@ =~= k_topology());
    }
    "topology"
}

fn s_message() -> (s: &'static str)
    ensures
        s@ == k_message(),
{
    proof {
        reveal_strlit("message");
        assert("message"@ =~= k_message());
    }
    "message"
}

fn s_messages() -> (s: &'static str)
    ensures
        s@ == k_messages(),
{
    proof {
        reveal_strlit("messages");
        assert("messages"@ =~= k_messages());
    }
    "messages"
}

fn s_txn() -> (s: &'static str)
    ensures
        s@ == k_txn(),
{
    proof {
        reveal_strlit("txn");
        assert("txn"@ =~= k_txn());
    }
    "txn"
}

fn s_key() -> (s: &'static str)
    ensures
        s@ == k_key(),
{
    proof {
        reveal_strlit("key");
        assert("key"@ =~= k_key());
    }
    "key"
}

fn s_value() -> (s: &'static str)
    ensures
        s@ == k_value(),
{
    proof {
        reveal_strlit("value");
        assert("value"@ =~= k_value());
    }
    "value"
}

fn s_from() -> (s: &'static str)
    ensures
        s@ == k_from(),
{
    proof {
        reveal_strlit("from");
        assert("from"@ =~= k_from());
    }
    "from"
}

fn s_to() -> (s: &'static str)
    ensures
        s@ == k_to(),
{
    proof {
        reveal_strlit("to");
        assert("to"@ =~= k_to());
    }
    "to"
}

fn s_create_if_not_exists() -> (s: &'static str)
    ensures
        s@ == k_create_if_not_exists(),
{
    proof {
        reveal_strlit("create_if_not_exists");
        assert("create_if_not_exists"@ =~= k_create_if_not_exists());
    }
    "create_if_not_exists"
}

fn n_error() -> (s: &'static str)
    ensures
        s@ == t_error(),
{
    proof {
        reveal_strlit("error");
        assert("error"@ =~= t_error());
    }
    "error"
}

fn n_init() -> (s: &'static str)
    ensures
        s@ == t_init(),
{
    proof {
        reveal_strlit("init");
        assert("init"@ =~= t_init());
    }
    "init"
}

fn n_init_ok() -> (s: &'static str)
    ensures
        s@ == t_init_ok(),
{
    proof {
        reveal_strlit("init_ok");
        assert("init_ok"@ =~= t_init_ok());
    }
    "init_ok"
}

fn n_echo() -> (s: &'static str)
    ensures
        s@ == t_echo(),
{
    proof {
        reveal_strlit("echo");
        assert("echo"@ =~= t_echo());
    }
    "echo"
}

fn n_echo_ok() -> (s: &'static str)
    ensures
        s@ == t_echo_ok(),
{
    proof {
        reveal_strlit("echo_ok");
        assert("echo_ok"@ =~= t_echo_ok());
    }
    "echo_ok"
}

fn n_generate() -> (s: &'static str)
    ensures
        s@ == t_generate(),
{
    proof {
        reveal_strlit("generate");
        assert("generate"@ =~= t_generate());
    }
    "generate"
}

fn n_generate_ok() -> (s: &'static str)
    ensures
        s@ == t_generate_ok(),
{
    proof {
        reveal_strlit("generate_ok");
        assert("generate_ok"@ =~= t_generate_ok());
    }
    "generate_ok"
}

fn n_topology() -> (s: &'static str)
    ensures
        s@ == t_topology(),
{
    proof {
        reveal_strlit("topology");
        assert("topology"@ =~= t_topology());
    }
    "topology"
}

fn n_topology_ok() -> (s: &'static str)
    ensures
        s@ == t_topology_ok(),
{
    proof {
        reveal_strlit("topology_ok");
        assert("topology_ok"@ =~= t_topology_ok());
    }
    "topology_ok"
}

fn n_broadcast() -> (s: &'static str)
    ensures
        s@ == t_broadcast(),
{
    proof {
        reveal_strlit("broadcast");
        assert("broadcast"@ =~= t_broadcast());
    }
    "broadcast"
}

fn n_broadcast_ok() -> (s: &'static str)
    ensures
        s@ == t_broadcast_ok(),
{
    proof {
        reveal_strlit("broadcast_ok");
        assert("broadcast_ok"@ =~= t_broadcast_ok());
    }
    "broadcast_ok"
}

fn n_read() -> (s: &'static str)
    ensures
        s@ == t_read(),
{
    proof {
        reveal_strlit("read");
        assert("read"@ =~= t_read());
    }
    "read"
}

fn n_read_ok() -> (s: &'static str)
    ensures
        s@ == t_read_ok(),
{
    proof {
        reveal_strlit("read_ok");
        assert("read_ok"@ =~= t_read_ok());
    }
    "read_ok"
}

fn n_txn() -> (s: &'static str)
    ensures
        s@ == t_txn(),
{
    proof {
        reveal_strlit("txn");
        assert("txn"@ =~= t_txn());
    }
    "txn"
}

fn n_txn_ok() -> (s: &'static str)
    ensures
        s@ == t_txn_ok(),
{
    proof {
        reveal_strlit("txn_ok");
        assert("txn_ok"@ =~= t_txn_ok());
    }
    "txn_ok"
}

fn n_write() -> (s: &'static str)
    ensures
        s@ == t_write(),
{
    proof {
        reveal_strlit("write");
        assert("write"@ =~= t_write());
    }
    "write"
}

fn n_write_ok() -> (s: &'static str)
    ensures
        s@ == t_write_ok(),
{
    proof {
        reveal_strlit("write_ok");
        assert("write_ok"@ =~= t_write_ok());
    }
    "write_ok"
}

fn n_cas() -> (s: &'static str)
    ensures
        s@ == t_cas(),
{
    proof {
        reveal_strlit("cas");
        assert("cas"@ =~= t_cas());
    }
    "cas"
}

fn n_cas_ok() -> (s: &'static str)
    ensures
        s@ == t_cas_ok(),
{
    proof {
        reveal_strlit("cas_ok");
        assert("cas_ok"@ =~= t_cas_ok());
    }
    "cas_ok"
}

/// The `type` that a payload goes by.
pub open spec fn type_of(e: ExtraView) -> Seq<char> {
    match e {
        ExtraView::Error { .. } => t_error(),
        ExtraView::Init { .. } => t_init(),
        ExtraView::InitOk => t_init_ok(),
        ExtraView::Echo { .. } => t_echo(),
        ExtraView::EchoOk { .. } => t_echo_ok(),
        ExtraView::Generate => t_generate(),
        ExtraView::GenerateOk { .. } => t_generate_ok(),
        ExtraView::Topology { .. } => t_topology(),
        ExtraView::TopologyOk => t_topology_ok(),
        ExtraView::Broadcast { .. } => t_broadcast(),
        ExtraView::BroadcastOk => t_broadcast_ok(),
        ExtraView::Read => t_read(),
        ExtraView::ReadOk { .. } => t_read_ok(),
        ExtraView::Txn { .. } => t_txn(),
        ExtraView::TxnOk { .. } => t_txn_ok(),
        ExtraView::KvRead { .. } => t_read(),
        ExtraView::KvReadOk { .. } => t_read_ok(),
        ExtraView::KvWrite { .. } => t_write(),
        ExtraView::KvWriteOk => t_write_ok(),
        ExtraView::KvCas { .. } => t_cas(),
        ExtraView::KvCasOk => t_cas_ok(),
    }
}

/// The list of strings under `name`.
pub open spec fn list_under(j: JsonValue, name: Seq<char>) -> Option<Seq<Seq<char>>> {
    match j.field(name) {
        Some(v) => json_texts(v),
        None => None,
    }
}

/// The list of numbers under `name`.
pub open spec fn numbers_under(j: JsonValue, name: Seq<char>) -> Option<Seq<u64>> {
    match j.field(name) {
        Some(v) => json_list(v),
        None => None,
    }
}

/// The run of operations under `name`.
pub open spec fn queries_under(j: JsonValue, name: Seq<char>) -> Option<
    Seq<crate::messages::QueryView>,
> {
    match j.field(name) {
        Some(v) => json_queries(v),
        None => None,
    }
}

/// The topology under `name`.
pub open spec fn topology_under(j: JsonValue, name: Seq<char>) -> Option<
    Map<Seq<char>, Seq<Seq<char>>>,
> {
    match j.field(name) {
        Some(v) => json_topology(v),
        None => None,
    }
}

/// The members of a body that a payload makes up: its `type` and what it
/// carries.
pub open spec fn payload_members(e: ExtraView) -> Map<Seq<char>, JsonValue> {
    let start = Map::<Seq<char>, JsonValue>::empty().insert(k_type(), JsonValue::Str(type_of(e)));
    match e {
        ExtraView::Error { code, text } => start.insert(k_code(), JsonValue::Number(code)).insert(k_text(), JsonValue::Str(text)),
        ExtraView::Init { node_id, node_ids } => start.insert(k_node_id(), JsonValue::Str(node_id)).insert(k_node_ids(), texts_json(node_ids)),
        ExtraView::InitOk => start,
        ExtraView::Echo { echo } => start.insert(k_echo(), JsonValue::Str(echo)),
        ExtraView::EchoOk { echo } => start.insert(k_echo(), JsonValue::Str(echo)),
        ExtraView::Generate => start,
        ExtraView::GenerateOk { id } => start.insert(k_id(), JsonValue::Str(id)),
        ExtraView::Topology { topology } => start.insert(k_topology(), topology_json(topology)),
        ExtraView::TopologyOk => start,
        ExtraView::Broadcast { message } => start.insert(k_message(), JsonValue::Number(message)),
        ExtraView::BroadcastOk => start,
        ExtraView::Read => start,
        ExtraView::ReadOk { messages } => start.insert(k_messages(), list_json(messages)),
        ExtraView::Txn { txn } => start.insert(k_txn(), queries_json(txn)),
        ExtraView::TxnOk { txn } => start.insert(k_txn(), queries_json(txn)),
        ExtraView::KvRead { key } => start.insert(k_key(), key),
        ExtraView::KvReadOk { value } => start.insert(k_value(), value),
        ExtraView::KvWrite { key, value } => start.insert(k_key(), key).insert(k_value(), value),
        ExtraView::KvWriteOk => start,
        ExtraView::KvCas { key, from, to, create_if_not_exists } => start.insert(k_key(), key).insert(k_from(), from).insert(k_to(), to).insert(k_create_if_not_exists(), JsonValue::Bool(create_if_not_exists)),
        ExtraView::KvCasOk => start,
    }
}

/// The `Error` payload that a body carries.
pub open spec fn error_in(body: JsonValue) -> Option<ExtraView> {
    match (number_at(body, k_code()), text_at(body, k_text())) {
        (Some(code), Some(text)) => Some(ExtraView::Error { code, text }),
        _ => None,
    }
}

/// The `Init` payload that a body carries.
pub open spec fn init_in(body: JsonValue) -> Option<ExtraView> {
    match (text_at(body, k_node_id()), list_under(body, k_node_ids())) {
        (Some(node_id), Some(node_ids)) => Some(ExtraView::Init { node_id, node_ids }),
        _ => None,
    }
}

/// The `Echo` payload that a body carries.
pub open spec fn echo_in(body: JsonValue) -> Option<ExtraView> {
    match text_at(body, k_echo()) {
        Some(echo) => Some(ExtraView::Echo { echo }),
        None => None,
    }
}

/// The `EchoOk` payload that a body carries.
pub open spec fn echo_ok_in(body: JsonValue) -> Option<ExtraView> {
    match text_at(body, k_echo()) {
        Some(echo) => Some(ExtraView::EchoOk { echo }),
        None => None,
    }
}

/// The `GenerateOk` payload that a body carries.
pub open spec fn generate_ok_in(body: JsonValue) -> Option<ExtraView> {
    match text_at(body, k_id()) {
        Some(id) => Some(ExtraView::GenerateOk { id }),
        None => None,
    }
}

/// The `Topology` payload that a body carries.
pub open spec fn topology_in(body: JsonValue) -> Option<ExtraView> {
    match topology_under(body, k_topology()) {
        Some(topology) => Some(ExtraView::Topology { topology }),
        None => None,
    }
}

/// The `Broadcast` payload that a body carries.
pub open spec fn broadcast_in(body: JsonValue) -> Option<ExtraView> {
    match number_at(body, k_message()) {
        Some(message) => Some(ExtraView::Broadcast { message }),
        None => None,
    }
}

/// The `ReadOk` payload that a body carries.
pub open spec fn read_ok_in(body: JsonValue) -> Option<ExtraView> {
    match numbers_under(body, k_messages()) {
        Some(messages) => Some(ExtraView::ReadOk { messages }),
        None => None,
    }
}

/// The `Txn` payload that a body carries.
pub open spec fn txn_in(body: JsonValue) -> Option<ExtraView> {
    match queries_under(body, k_txn()) {
        Some(txn) => Some(ExtraView::Txn { txn }),
        None => None,
    }
}

/// The `TxnOk` payload that a body carries.
pub open spec fn txn_ok_in(body: JsonValue) -> Option<ExtraView> {
    match queries_under(body, k_txn()) {
        Some(txn) => Some(ExtraView::TxnOk { txn }),
        None => None,
    }
}

/// The `KvRead` payload that a body carries.
pub open spec fn kv_read_in(body: JsonValue) -> Option<ExtraView> {
    match body.field(k_key()) {
        Some(key) => Some(ExtraView::KvRead { key }),
        None => None,
    }
}

/// The `KvReadOk` payload that a body carries.
pub open spec fn kv_read_ok_in(body: JsonValue) -> Option<ExtraView> {
    match body.field(k_value()) {
        Some(value) => Some(ExtraView::KvReadOk { value }),
        None => None,
    }
}

/// The `KvWrite` payload that a body carries.
pub open spec fn kv_write_in(body: JsonValue) -> Option<ExtraView> {
    match (body.field(k_key()), body.field(k_value())) {
        (Some(key), Some(value)) => Some(ExtraView::KvWrite { key, value }),
        _ => None,
    }
}

/// The `KvCas` payload that a body carries.
pub open spec fn kv_cas_in(body: JsonValue) -> Option<ExtraView> {
    match (body.field(k_key()), body.field(k_from()), body.field(k_to()), flag_at(body, k_create_if_not_exists())) {
        (Some(key), Some(from), Some(to), Some(create_if_not_exists)) => Some(ExtraView::KvCas { key, from, to, create_if_not_exists }),
        _ => None,
    }
}

/// The payload that a body carries, by its `type`. A `read` with a `key`
/// is a question to the key-value service, one without is the broadcast
/// workload's; a `read_ok` with a `value` is the service's answer, one
/// without carries `messages`.
pub open spec fn payload_in(body: JsonValue) -> Option<ExtraView> {
    match text_at(body, k_type()) {
        None => None,
        Some(tag) => {
            if tag == t_error() {
                error_in(body)
            } else if tag == t_init() {
                init_in(body)
            } else if tag == t_init_ok() {
                Some(ExtraView::InitOk)
            } else if tag == t_echo() {
                echo_in(body)
            } else if tag == t_echo_ok() {
                echo_ok_in(body)
            } else if tag == t_generate() {
                Some(ExtraView::Generate)
            } else if tag == t_generate_ok() {
                generate_ok_in(body)
            } else if tag == t_topology() {
                topology_in(body)
            } else if tag == t_topology_ok() {
                Some(ExtraView::TopologyOk)
            } else if tag == t_broadcast() {
                broadcast_in(body)
            } else if tag == t_broadcast_ok() {
                Some(ExtraView::BroadcastOk)
            } else if tag == t_read() {
                if body.field(k_key()) is Some {
                    kv_read_in(body)
                } else {
                    Some(ExtraView::Read)
                }
            } else if tag == t_read_ok() {
                if body.field(k_value()) is Some {
                    kv_read_ok_in(body)
                } else {
                    read_ok_in(body)
                }
            } else if tag == t_txn() {
                txn_in(body)
            } else if tag == t_txn_ok() {
                txn_ok_in(body)
            } else if tag == t_write() {
                kv_write_in(body)
            } else if tag == t_write_ok() {
                Some(ExtraView::KvWriteOk)
            } else if tag == t_cas() {
                kv_cas_in(body)
            } else if tag == t_cas_ok() {
                Some(ExtraView::KvCasOk)
            } else {
                None
            }
        },
    }
}

/// A map with a number under `name`, if there is a number.
pub open spec fn with_number(
    members: Map<Seq<char>, JsonValue>,
    name: Seq<char>,
    n: Option<u64>,
) -> Map<Seq<char>, JsonValue> {
    match n {
        Some(n) => members.insert(name, JsonValue::Number(n)),
        None => members,
    }
}

/// A body as JSON: the members of its payload, and `msg_id` and
/// `in_reply_to` where they are set.
pub open spec fn body_json(b: BodyView) -> JsonValue {
    JsonValue::Object(
        with_number(
            with_number(payload_members(b.extra), k_msg_id(), b.msg_id),
            k_in_reply_to(),
            b.in_reply_to,
        ),
    )
}

/// The body that a JSON value holds.
pub open spec fn json_body(j: JsonValue) -> Option<BodyView> {
    match (optional_number_at(j, k_msg_id()), optional_number_at(j, k_in_reply_to()), payload_in(j)) {
        (Some(msg_id), Some(in_reply_to), Some(extra)) => Some(
            BodyView { msg_id, in_reply_to, extra },
        ),
        _ => None,
    }
}

/// A message as JSON: `src`, `dest` and `body`.
pub open spec fn message_json(m: MessageView) -> JsonValue {
    JsonValue::Object(
        Map::<Seq<char>, JsonValue>::empty().insert(k_src(), JsonValue::Str(m.src)).insert(
            k_dest(),
            JsonValue::Str(m.dest),
        ).insert(k_body(), body_json(m.body)),
    )
}

/// The message that a JSON value holds.
pub open spec fn json_message(j: JsonValue) -> Option<MessageView> {
    match (text_at(j, k_src()), text_at(j, k_dest()), j.field(k_body())) {
        (Some(src), Some(dest), Some(body)) => match json_body(body) {
            Some(body) => Some(MessageView { src, dest, body }),
            None => None,
        },
        _ => None,
    }
}

/// The list of strings under `name`.
fn get_texts(body: &Json, name: &str) -> (r: Option<Vec<String>>)
    ensures
        match r {
            Some(v) => list_under(body@, name@) == Some(texts(v@)),
            None => list_under(body@, name@) is None,
        },
{
    match body.get(name) {
        Some(v) => decode_texts(v),
        None => None,
    }
}

/// The list of numbers under `name`.
fn get_numbers(body: &Json, name: &str) -> (r: Option<Vec<u64>>)
    ensures
        match r {
            Some(v) => numbers_under(body@, name@) == Some(v@),
            None => numbers_under(body@, name@) is None,
        },
{
    match body.get(name) {
        Some(v) => decode_list(v),
        None => None,
    }
}

/// The run of operations under `name`.
fn get_queries(body: &Json, name: &str) -> (r: Option<Vec<crate::messages::Query>>)
    ensures
        match r {
            Some(v) => queries_under(body@, name@) == Some(queries_view(v@)),
            None => queries_under(body@, name@) is None,
        },
{
    match body.get(name) {
        Some(v) => decode_queries(v),
        None => None,
    }
}

/// The topology under `name`.
fn get_topology(body: &Json, name: &str) -> (r: Option<Vec<(String, Vec<String>)>>)
    ensures
        match r {
            Some(v) => topology_under(body@, name@) == Some(topology_view(v@)),
            None => topology_under(body@, name@) is None,
        },
{
    match body.get(name) {
        Some(v) => decode_topology(v),
        None => None,
    }
}

/// A copy of the value under `name`.
fn get_value(body: &Json, name: &str) -> (r: Option<Json>)
    ensures
        match r {
            Some(v) => body@.field(name@) == Some(v@),
            None => body@.field(name@) is None,
        },
{
    match body.get(name) {
        Some(v) => Some(v.duplicate()),
        None => None,
    }
}

/// The members of a body that a payload makes up.
pub fn encode_payload(e: &MessageExtra) -> (members: Vec<(String, Json)>)
    ensures
        members_view(members@) == payload_members(e@),
{
    let mut members: Vec<(String, Json)> = Vec::new();
    proof {
        assert(members_view(members@) =~= Map::<Seq<char>, JsonValue>::empty());
    }
    match e {
        MessageExtra::Error(x) => {
            put(&mut members, s_type(), Json::Str(n_error().to_owned()));
            put(&mut members, s_code(), Json::Number(x.code));
            put(&mut members, s_text(), Json::Str(x.text.clone()));
        },
        MessageExtra::Init(x) => {
            put(&mut members, s_type(), Json::Str(n_init().to_owned()));
            put(&mut members, s_node_id(), Json::Str(x.node_id.clone()));
            put(&mut members, s_node_ids(), encode_texts(&x.node_ids));
        },
        MessageExtra::InitOk => {
            put(&mut members, s_type(), Json::Str(n_init_ok().to_owned()));
        },
        MessageExtra::Echo(x) => {
            put(&mut members, s_type(), Json::Str(n_echo().to_owned()));
            put(&mut members, s_echo(), Json::Str(x.echo.clone()));
        },
        MessageExtra::EchoOk(x) => {
            put(&mut members, s_type(), Json::Str(n_echo_ok().to_owned()));
            put(&mut members, s_echo(), Json::Str(x.echo.clone()));
        },
        MessageExtra::Generate => {
            put(&mut members, s_type(), Json::Str(n_generate().to_owned()));
        },
        MessageExtra::GenerateOk(x) => {
            put(&mut members, s_type(), Json::Str(n_generate_ok().to_owned()));
            put(&mut members, s_id(), Json::Str(x.id.clone()));
        },
        MessageExtra::Topology(x) => {
            put(&mut members, s_type(), Json::Str(n_topology().to_owned()));
            put(&mut members, s_topology(), encode_topology(&x.topology));
        },
        MessageExtra::TopologyOk => {
            put(&mut members, s_type(), Json::Str(n_topology_ok().to_owned()));
        },
        MessageExtra::Broadcast(x) => {
            put(&mut members, s_type(), Json::Str(n_broadcast().to_owned()));
            put(&mut members, s_message(), Json::Number(x.message));
        },
        MessageExtra::BroadcastOk => {
            put(&mut members, s_type(), Json::Str(n_broadcast_ok().to_owned()));
        },
        MessageExtra::Read => {
            put(&mut members, s_type(), Json::Str(n_read().to_owned()));
        },
        MessageExtra::ReadOk(x) => {
            put(&mut members, s_type(), Json::Str(n_read_ok().to_owned()));
            put(&mut members, s_messages(), encode_list(&x.messages));
        },
        MessageExtra::Txn(x) => {
            put(&mut members, s_type(), Json::Str(n_txn().to_owned()));
            put(&mut members, s_txn(), encode_queries(&x.txn));
        },
        MessageExtra::TxnOk(x) => {
            put(&mut members, s_type(), Json::Str(n_txn_ok().to_owned()));
            put(&mut members, s_txn(), encode_queries(&x.txn));
        },
        MessageExtra::KvRead(x) => {
            put(&mut members, s_type(), Json::Str(n_read().to_owned()));
            put(&mut members, s_key(), x.key.duplicate());
        },
        MessageExtra::KvReadOk(x) => {
            put(&mut members, s_type(), Json::Str(n_read_ok().to_owned()));
            put(&mut members, s_value(), x.value.duplicate());
        },
        MessageExtra::KvWrite(x) => {
            put(&mut members, s_type(), Json::Str(n_write().to_owned()));
            put(&mut members, s_key(), x.key.duplicate());
            put(&mut members, s_value(), x.value.duplicate());
        },
        MessageExtra::KvWriteOk => {
            put(&mut members, s_type(), Json::Str(n_write_ok().to_owned()));
        },
        MessageExtra::KvCas(x) => {
            put(&mut members, s_type(), Json::Str(n_cas().to_owned()));
            put(&mut members, s_key(), x.key.duplicate());
            put(&mut members, s_from(), x.from.duplicate());
            put(&mut members, s_to(), x.to.duplicate());
            put(&mut members, s_create_if_not_exists(), Json::Bool(x.create_if_not_exists));
        },
        MessageExtra::KvCasOk => {
            put(&mut members, s_type(), Json::Str(n_cas_ok().to_owned()));
        },
    }
    members
}

/// Reads the `error` payload that a body carries.
fn take_error(body: &Json) -> (r: Option<MessageExtra>)
    ensures
        match r {
            Some(e) => error_in(body@) == Some(e@),
            None => error_in(body@) is None,
        },
{
    let code = match get_number(body, s_code()) {
        Some(v) => v,
        None => {
            return None;
        },
    };
    let text = match get_text(body, s_text()) {
        Some(v) => v,
        None => {
            return None;
        },
    };
    Some(MessageExtra::Error(ErrorExtra { code, text }))
}

/// Reads the `init` payload that a body carries.
fn take_init(body: &Json) -> (r: Option<MessageExtra>)
    ensures
        match r {
            Some(e) => init_in(body@) == Some(e@),
            None => init_in(body@) is None,
        },
{
    let node_id = match get_text(body, s_node_id()) {
        Some(v) => v,
        None => {
            return None;
        },
    };
    let node_ids = match get_texts(body, s_node_ids()) {
        Some(v) => v,
        None => {
            return None;
        },
    };
    Some(MessageExtra::Init(InitRequestExtra { node_id, node_ids }))
}

/// Reads the `echo` payload that a body carries.
fn take_echo(body: &Json) -> (r: Option<MessageExtra>)
    ensures
        match r {
            Some(e) => echo_in(body@) == Some(e@),
            None => echo_in(body@) is None,
        },
{
    let echo = match get_text(body, s_echo()) {
        Some(v) => v,
        None => {
            return None;
        },
    };
    Some(MessageExtra::Echo(EchoRequestExtra { echo }))
}

/// Reads the `echo_ok` payload that a body carries.
fn take_echo_ok(body: &Json) -> (r: Option<MessageExtra>)
    ensures
        match r {
            Some(e) => echo_ok_in(body@) == Some(e@),
            None => echo_ok_in(body@) is None,
        },
{
    let echo = match get_text(body, s_echo()) {
        Some(v) => v,
        None => {
            return None;
        },
    };
    Some(MessageExtra::EchoOk(EchoResponseExtra { echo }))
}

/// Reads the `generate_ok` payload that a body carries.
fn take_generate_ok(body: &Json) -> (r: Option<MessageExtra>)
    ensures
        match r {
            Some(e) => generate_ok_in(body@) == Some(e@),
            None => generate_ok_in(body@) is None,
        },
{
    let id = match get_text(body, s_id()) {
        Some(v) => v,
        None => {
            return None;
        },
    };
    Some(MessageExtra::GenerateOk(GenerateResponseExtra { id }))
}

/// Reads the `topology` payload that a body carries.
fn take_topology(body: &Json) -> (r: Option<MessageExtra>)
    ensures
        match r {
            Some(e) => topology_in(body@) == Some(e@),
            None => topology_in(body@) is None,
        },
{
    let topology = match get_topology(body, s_topology()) {
        Some(v) => v,
        None => {
            return None;
        },
    };
    Some(MessageExtra::Topology(TopologyRequestExtra { topology }))
}

/// Reads the `broadcast` payload that a body carries.
fn take_broadcast(body: &Json) -> (r: Option<MessageExtra>)
    ensures
        match r {
            Some(e) => broadcast_in(body@) == Some(e@),
            None => broadcast_in(body@) is None,
        },
{
    let message = match get_number(body, s_message()) {
        Some(v) => v,
        None => {
            return None;
        },
    };
    Some(MessageExtra::Broadcast(BroadcastRequestExtra { message }))
}

/// Reads the `read_ok` payload that a body carries.
fn take_read_ok(body: &Json) -> (r: Option<MessageExtra>)
    ensures
        match r {
            Some(e) => read_ok_in(body@) == Some(e@),
            None => read_ok_in(body@) is None,
        },
{
    let messages = match get_numbers(body, s_messages()) {
        Some(v) => v,
        None => {
            return None;
        },
    };
    Some(MessageExtra::ReadOk(ReadResponseExtra { messages }))
}

/// Reads the `txn` payload that a body carries.
fn take_txn(body: &Json) -> (r: Option<MessageExtra>)
    ensures
        match r {
            Some(e) => txn_in(body@) == Some(e@),
            None => txn_in(body@) is None,
        },
{
    let txn = match get_queries(body, s_txn()) {
        Some(v) => v,
        None => {
            return None;
        },
    };
    Some(MessageExtra::Txn(TxnRequestExtra { txn }))
}

/// Reads the `txn_ok` payload that a body carries.
fn take_txn_ok(body: &Json) -> (r: Option<MessageExtra>)
    ensures
        match r {
            Some(e) => txn_ok_in(body@) == Some(e@),
            None => txn_ok_in(body@) is None,
        },
{
    let txn = match get_queries(body, s_txn()) {
        Some(v) => v,
        None => {
            return None;
        },
    };
    Some(MessageExtra::TxnOk(TxnResponseExtra { txn }))
}

/// Reads the `read` payload that a body carries.
fn take_kv_read(body: &Json) -> (r: Option<MessageExtra>)
    ensures
        match r {
            Some(e) => kv_read_in(body@) == Some(e@),
            None => kv_read_in(body@) is None,
        },
{
    let key = match get_value(body, s_key()) {
        Some(v) => v,
        None => {
            return None;
        },
    };
    Some(MessageExtra::KvRead(KvReadExtra { key }))
}

/// Reads the `read_ok` payload that a body carries.
fn take_kv_read_ok(body: &Json) -> (r: Option<MessageExtra>)
    ensures
        match r {
            Some(e) => kv_read_ok_in(body@) == Some(e@),
            None => kv_read_ok_in(body@) is None,
        },
{
    let value = match get_value(body, s_value()) {
        Some(v) => v,
        None => {
            return None;
        },
    };
    Some(MessageExtra::KvReadOk(KvReadOkExtra { value }))
}

/// Reads the `write` payload that a body carries.
fn take_kv_write(body: &Json) -> (r: Option<MessageExtra>)
    ensures
        match r {
            Some(e) => kv_write_in(body@) == Some(e@),
            None => kv_write_in(body@) is None,
        },
{
    let key = match get_value(body, s_key()) {
        Some(v) => v,
        None => {
            return None;
        },
    };
    let value = match get_value(body, s_value()) {
        Some(v) => v,
        None => {
            return None;
        },
    };
    Some(MessageExtra::KvWrite(KvWriteExtra { key, value }))
}

/// Reads the `cas` payload that a body carries.
fn take_kv_cas(body: &Json) -> (r: Option<MessageExtra>)
    ensures
        match r {
            Some(e) => kv_cas_in(body@) == Some(e@),
            None => kv_cas_in(body@) is None,
        },
{
    let key = match get_value(body, s_key()) {
        Some(v) => v,
        None => {
            return None;
        },
    };
    let from = match get_value(body, s_from()) {
        Some(v) => v,
        None => {
            return None;
        },
    };
    let to = match get_value(body, s_to()) {
        Some(v) => v,
        None => {
            return None;
        },
    };
    let create_if_not_exists = match get_flag(body, s_create_if_not_exists()) {
        Some(v) => v,
        None => {
            return None;
        },
    };
    Some(MessageExtra::KvCas(KvCasData { key, from, to, create_if_not_exists }))
}

/// Reads the payload that a body carries. `None` for a body without a
/// `type`, with a `type` that is none of the protocol's, or without the
/// members that its `type` asks for.
pub fn decode_payload(body: &Json) -> (r: Option<MessageExtra>)
    ensures
        match r {
            Some(e) => payload_in(body@) == Some(e@),
            None => payload_in(body@) is None,
        },
{
    let tag = match get_text(body, s_type()) {
        Some(tag) => tag,
        None => {
            return None;
        },
    };
    let tag = tag.as_str();
    if same_text(tag, n_error()) {
        take_error(body)
    } else if same_text(tag, n_init()) {
        take_init(body)
    } else if same_text(tag, n_init_ok()) {
        Some(MessageExtra::InitOk)
    } else if same_text(tag, n_echo()) {
        take_echo(body)
    } else if same_text(tag, n_echo_ok()) {
        take_echo_ok(body)
    } else if same_text(tag, n_generate()) {
        Some(MessageExtra::Generate)
    } else if same_text(tag, n_generate_ok()) {
        take_generate_ok(body)
    } else if same_text(tag, n_topology()) {
        take_topology(body)
    } else if same_text(tag, n_topology_ok()) {
        Some(MessageExtra::TopologyOk)
    } else if same_text(tag, n_broadcast()) {
        take_broadcast(body)
    } else if same_text(tag, n_broadcast_ok()) {
        Some(MessageExtra::BroadcastOk)
    } else if same_text(tag, n_read()) {
        if body.get(s_key()).is_some() {
            take_kv_read(body)
        } else {
            Some(MessageExtra::Read)
        }
    } else if same_text(tag, n_read_ok()) {
        if body.get(s_value()).is_some() {
            take_kv_read_ok(body)
        } else {
            take_read_ok(body)
        }
    } else if same_text(tag, n_txn()) {
        take_txn(body)
    } else if same_text(tag, n_txn_ok()) {
        take_txn_ok(body)
    } else if same_text(tag, n_write()) {
        take_kv_write(body)
    } else if same_text(tag, n_write_ok()) {
        Some(MessageExtra::KvWriteOk)
    } else if same_text(tag, n_cas()) {
        take_kv_cas(body)
    } else if same_text(tag, n_cas_ok()) {
        Some(MessageExtra::KvCasOk)
    } else {
        None
    }
}

/// A payload that is written into a body is read back from it, whatever
/// `msg_id` and `in_reply_to` stand beside it.
pub proof fn lemma_payload_round_trip(b: BodyView)
    ensures
        payload_in(body_json(b)) == Some(b.extra),
{
    lemma_names();
    lemma_types();
    let body = body_json(b);
    let members = payload_members(b.extra);
    assert(body.field(k_type()) == Some(JsonValue::Str(type_of(b.extra))));
    match b.extra {
        ExtraView::Init { node_id, node_ids } => {
            lemma_texts_round_trip(node_ids);
            assert(body.field(k_node_ids()) == Some(texts_json(node_ids)));
            assert(body.field(k_node_id()) == Some(JsonValue::Str(node_id)));
        },
        ExtraView::Topology { topology } => {
            lemma_topology_round_trip(topology);
            assert(body.field(k_topology()) == Some(topology_json(topology)));
        },
        ExtraView::ReadOk { messages } => {
            lemma_list_round_trip(messages);
            assert(body.field(k_messages()) == Some(list_json(messages)));
            assert(body.field(k_value()) is None);
        },
        ExtraView::Txn { txn } => {
            lemma_queries_round_trip(txn);
            assert(body.field(k_txn()) == Some(queries_json(txn)));
        },
        ExtraView::TxnOk { txn } => {
            lemma_queries_round_trip(txn);
            assert(body.field(k_txn()) == Some(queries_json(txn)));
        },
        ExtraView::Read => {
            assert(body.field(k_key()) is None);
        },
        ExtraView::KvRead { key } => {
            assert(body.field(k_key()) == Some(key));
        },
        ExtraView::KvReadOk { value } => {
            assert(body.field(k_value()) == Some(value));
        },
        ExtraView::KvWrite { key, value } => {
            assert(body.field(k_key()) == Some(key));
            assert(body.field(k_value()) == Some(value));
        },
        ExtraView::KvCas { key, from, to, create_if_not_exists } => {
            assert(body.field(k_key()) == Some(key));
            assert(body.field(k_from()) == Some(from));
            assert(body.field(k_to()) == Some(to));
            assert(body.field(k_create_if_not_exists()) == Some(
                JsonValue::Bool(create_if_not_exists),
            ));
        },
        ExtraView::Error { code, text } => {
            assert(body.field(k_code()) == Some(JsonValue::Number(code)));
            assert(body.field(k_text()) == Some(JsonValue::Str(text)));
        },
        ExtraView::Echo { echo } => {
            assert(body.field(k_echo()) == Some(JsonValue::Str(echo)));
        },
        ExtraView::EchoOk { echo } => {
            assert(body.field(k_echo()) == Some(JsonValue::Str(echo)));
        },
        ExtraView::GenerateOk { id } => {
            assert(body.field(k_id()) == Some(JsonValue::Str(id)));
        },
        ExtraView::Broadcast { message } => {
            assert(body.field(k_message()) == Some(JsonValue::Number(message)));
        },
        _ => {},
    }
}

/// A body that is written out and read back is the same body.
pub proof fn lemma_body_round_trip(b: BodyView)
    ensures
        json_body(body_json(b)) == Some(b),
{
    lemma_names();
    lemma_payload_round_trip(b);
    let members = payload_members(b.extra);
    assert(!members.contains_key(k_msg_id()) && !members.contains_key(k_in_reply_to())) by {
        lemma_payload_names(b.extra);
    }
}

/// No payload has a member named `msg_id` or `in_reply_to`.
pub proof fn lemma_payload_names(e: ExtraView)
    ensures
        !payload_members(e).contains_key(k_msg_id()),
        !payload_members(e).contains_key(k_in_reply_to()),
{
    lemma_names();
}

/// Round trip: a message that is written out and read back is the same
/// message. So a frame that was read and is written out again reads as
/// before: it has the same `src`, `dest`, `type`, `msg_id` and
/// `in_reply_to`, and the payload carries the same.
pub proof fn lemma_message_round_trip(m: MessageView)
    ensures
        json_message(message_json(m)) == Some(m),
{
    lemma_names();
    lemma_body_round_trip(m.body);
}

/// Reading a frame and writing it out again gives a frame that reads the
/// same.
pub proof fn lemma_frame_round_trip(j: JsonValue)
    requires
        json_message(j) is Some,
    ensures
        json_message(message_json(json_message(j).unwrap())) == json_message(j),
{
    lemma_message_round_trip(json_message(j).unwrap());
}

/// Writes a message as JSON.
pub fn encode_message(m: &Message) -> (r: Json)
    ensures
        r@ == message_json(m@),
{
    let mut body = encode_payload(&m.body.extra);
    match m.body.msg_id {
        Some(n) => {
            put(&mut body, s_msg_id(), Json::Number(n));
        },
        None => {},
    }
    match m.body.in_reply_to {
        Some(n) => {
            put(&mut body, s_in_reply_to(), Json::Number(n));
        },
        None => {},
    }
    let mut members: Vec<(String, Json)> = Vec::new();
    proof {
        assert(members_view(members@) =~= Map::<Seq<char>, JsonValue>::empty());
    }
    put(&mut members, s_src(), Json::Str(m.src.clone()));
    put(&mut members, s_dest(), Json::Str(m.dest.clone()));
    put(&mut members, s_body(), Json::Object(body));
    Json::Object(members)
}

/// Reads a message from JSON. `None` for a value that holds none: one
/// without `src`, `dest` or `body`, with a `msg_id` or `in_reply_to` that
/// is no number, or with a body that carries no payload of the protocol.
pub fn decode_message(j: &Json) -> (r: Option<Message>)
    ensures
        match r {
            Some(m) => json_message(j@) == Some(m@),
            None => json_message(j@) is None,
        },
{
    let src = match get_text(j, s_src()) {
        Some(v) => v,
        None => {
            return None;
        },
    };
    let dest = match get_text(j, s_dest()) {
        Some(v) => v,
        None => {
            return None;
        },
    };
    let body = match j.get(s_body()) {
        Some(v) => v,
        None => {
            return None;
        },
    };
    let msg_id = match get_optional_number(body, s_msg_id()) {
        Some(v) => v,
        None => {
            return None;
        },
    };
    let in_reply_to = match get_optional_number(body, s_in_reply_to()) {
        Some(v) => v,
        None => {
            return None;
        },
    };
    let extra = match decode_payload(body) {
        Some(v) => v,
        None => {
            return None;
        },
    };
    Some(Message { src, dest, body: MessageBody { msg_id, in_reply_to, extra } })
}

/// Why a line is no message.
#[derive(Clone, Copy, Debug, PartialEq, Eq, Structural)]
pub enum FrameError {
    /// The line is no JSON, or holds a number that is no unsigned 64-bit
    /// integer.
    Syntax,
    /// The line is JSON, but no message of the protocol.
    Shape,
}

/// Reads a message from one line of input.
pub fn parse_message(line: &str) -> (r: Result<Message, FrameError>)
    ensures
        match r {
            Ok(m) => text_content(line@) is Some && json_message(text_content(line@).unwrap())
                == Some(m@),
            Err(FrameError::Syntax) => text_content(line@) is None,
            Err(FrameError::Shape) => text_content(line@) is Some && json_message(
                text_content(line@).unwrap(),
            ) is None,
        },
{
    match parse(line) {
        None => Err(FrameError::Syntax),
        Some(j) => match decode_message(&j) {
            Some(m) => Ok(m),
            None => Err(FrameError::Shape),
        },
    }
}

/// Writes a message as text for the output: the text of the message as
/// JSON. Every message has one, so the result is never `None`.
pub fn emit_message(m: &Message) -> (r: Option<String>)
    ensures
        match r {
            Some(line) => line@ == content_text(message_json(m@)),
            None => false,
        },
{
    render(&encode_message(m))
}

} // verus!

//! The messages of the Maelstrom protocol: an envelope around a body whose
//! `type` names one of a closed set of payloads.
use crate::json::{Json, JsonValue};
use vstd::prelude::*;

verus! {

/// A value that nodes gossip in the broadcast workload.
pub type BroadcastValue = u64;

/// One envelope: who sent it, whom it is for, and what it says.
#[derive(Clone, Debug, PartialEq, Eq)]
pub struct Message {
    pub src: String,
    pub dest: String,
    pub body: MessageBody,
}

/// The body of an envelope. `msg_id` is set when a reply is expected,
/// `in_reply_to` on a reply.
#[derive(Clone, Debug, PartialEq, Eq)]
pub struct MessageBody {
    pub msg_id: Option<u64>,
    pub in_reply_to: Option<u64>,
    pub extra: MessageExtra,
}

/// The payload of a body, told apart on the wire by its `type`.
#[derive(Clone, Debug, PartialEq, Eq)]
pub enum MessageExtra {
    Error(ErrorExtra),
    Init(InitRequestExtra),
    InitOk,
    Echo(EchoRequestExtra),
    EchoOk(EchoResponseExtra),
    Generate,
    GenerateOk(GenerateResponseExtra),
    Topology(TopologyRequestExtra),
    TopologyOk,
    Broadcast(BroadcastRequestExtra),
    BroadcastOk,
    /// `read` without a key: the broadcast workload's question.
    Read,
    /// `read_ok` with `messages`: its answer.
    ReadOk(ReadResponseExtra),
    Txn(TxnRequestExtra),
    TxnOk(TxnResponseExtra),
    /// `read` with a key: a question to the key-value service.
    KvRead(KvReadExtra),
    /// `read_ok` with a `value`: its answer.
    KvReadOk(KvReadOkExtra),
    KvWrite(KvWriteExtra),
    KvWriteOk,
    KvCas(KvCasData),
    KvCasOk,
}

#[derive(Clone, Debug, PartialEq, Eq)]
pub struct ErrorExtra {
    pub code: u64,
    pub text: String,
}

#[derive(Clone, Debug, PartialEq, Eq)]
pub struct KvReadExtra {
    pub key: Json,
}

#[derive(Clone, Debug, PartialEq, Eq)]
pub struct KvReadOkExtra {
    pub value: Json,
}

#[derive(Clone, Debug, PartialEq, Eq)]
pub struct KvWriteExtra {
    pub key: Json,
    pub value: Json,
}

/// Sets `key` to `to` if it holds `from` now. The service answers with
/// error 20 if the key does not exist and 22 if it holds something else.
#[derive(Clone, Debug, PartialEq, Eq)]
pub struct KvCasData {
    pub key: Json,
    pub from: Json,
    pub to: Json,
    pub create_if_not_exists: bool,
}

#[derive(Clone, Debug, PartialEq, Eq)]
pub struct EchoRequestExtra {
    pub echo: String,
}

#[derive(Clone, Debug, PartialEq, Eq)]
pub struct EchoResponseExtra {
    pub echo: String,
}

#[derive(Clone, Debug, PartialEq, Eq)]
pub struct InitRequestExtra {
    pub node_id: String,
    pub node_ids: Vec<String>,
}

#[derive(Clone, Debug, PartialEq, Eq)]
pub struct GenerateResponseExtra {
    pub id: String,
}

/// Each node with its neighbours. A later entry for a node replaces an
/// earlier one.
#[derive(Clone, Debug, PartialEq, Eq)]
pub struct TopologyRequestExtra {
    pub topology: Vec<(String, Vec<String>)>,
}

#[derive(Clone, Debug, PartialEq, Eq)]
pub struct BroadcastRequestExtra {
    pub message: BroadcastValue,
}

/// The values seen so far.
#[derive(Clone, Debug, PartialEq, Eq)]
pub struct ReadResponseExtra {
    pub messages: Vec<BroadcastValue>,
}

#[derive(Clone, Debug, PartialEq, Eq)]
pub struct TxnRequestExtra {
    pub txn: Vec<Query>,
}

#[derive(Clone, Debug, PartialEq, Eq)]
pub struct TxnResponseExtra {
    pub txn: Vec<Query>,
}

/// One operation of a transaction: `(op, key, value)`, where `op` is `"r"`
/// or `"append"`.
#[derive(Clone, Debug, PartialEq, Eq)]
pub struct Query(pub String, pub u64, pub QueryValue);

/// What an operation carries: the list that a read saw (`None` for a key
/// that is absent, or for a read not yet answered), or the number to append.
#[derive(Clone, Debug, PartialEq, Eq)]
pub enum QueryValue {
    Read(Option<Vec<u64>>),
    Append(u64),
}

/// The texts of a run of strings.
pub open spec fn texts(v: Seq<String>) -> Seq<Seq<char>> {
    v.map_values(|s: String| s@)
}

/// The map that a run of topology entries builds.
pub open spec fn topology_view(entries: Seq<(String, Vec<String>)>) -> Map<
    Seq<char>,
    Seq<Seq<char>>,
>
    decreases entries.len(),
{
    if entries.len() == 0 {
        Map::empty()
    } else {
        topology_view(entries.drop_last()).insert(
            entries.last().0@,
            texts(entries.last().1@),
        )
    }
}

pub struct ErrorView {
    pub code: u64,
    pub text: Seq<char>,
}

impl View for ErrorExtra {
    type V = ErrorView;

    open spec fn view(&self) -> ErrorView {
        ErrorView { code: self.code, text: self.text@ }
    }
}

pub enum QueryValueView {
    Read(Option<Seq<u64>>),
    Append(u64),
}

pub struct QueryView {
    pub op: Seq<char>,
    pub key: u64,
    pub value: QueryValueView,
}

pub enum ExtraView {
    Error { code: u64, text: Seq<char> },
    Init { node_id: Seq<char>, node_ids: Seq<Seq<char>> },
    InitOk,
    Echo { echo: Seq<char> },
    EchoOk { echo: Seq<char> },
    Generate,
    GenerateOk { id: Seq<char> },
    Topology { topology: Map<Seq<char>, Seq<Seq<char>>> },
    TopologyOk,
    Broadcast { message: u64 },
    BroadcastOk,
    Read,
    ReadOk { messages: Seq<u64> },
    Txn { txn: Seq<QueryView> },
    TxnOk { txn: Seq<QueryView> },
    KvRead { key: JsonValue },
    KvReadOk { value: JsonValue },
    KvWrite { key: JsonValue, value: JsonValue },
    KvWriteOk,
    KvCas { key: JsonValue, from: JsonValue, to: JsonValue, create_if_not_exists: bool },
    KvCasOk,
}

pub struct BodyView {
    pub msg_id: Option<u64>,
    pub in_reply_to: Option<u64>,
    pub extra: ExtraView,
}

pub struct MessageView {
    pub src: Seq<char>,
    pub dest: Seq<char>,
    pub body: BodyView,
}

impl View for QueryValue {
    type V = QueryValueView;

    open spec fn view(&self) -> QueryValueView {
        match self {
            QueryValue::Read(Some(list)) => QueryValueView::Read(Some(list@)),
            QueryValue::Read(None) => QueryValueView::Read(None),
            QueryValue::Append(v) => QueryValueView::Append(*v),
        }
    }
}

impl View for Query {
    type V = QueryView;

    open spec fn view(&self) -> QueryView {
        QueryView { op: self.0@, key: self.1, value: self.2@ }
    }
}

/// The meanings of a run of operations.
pub open spec fn queries_view(v: Seq<Query>) -> Seq<QueryView> {
    v.map_values(|q: Query| q@)
}

impl View for MessageExtra {
    type V = ExtraView;

    open spec fn view(&self) -> ExtraView {
        match self {
            MessageExtra::Error(e) => ExtraView::Error { code: e.code, text: e.text@ },
            MessageExtra::Init(e) => ExtraView::Init {
                node_id: e.node_id@,
                node_ids: texts(e.node_ids@),
            },
            MessageExtra::InitOk => ExtraView::InitOk,
            MessageExtra::Echo(e) => ExtraView::Echo { echo: e.echo@ },
            MessageExtra::EchoOk(e) => ExtraView::EchoOk { echo: e.echo@ },
            MessageExtra::Generate => ExtraView::Generate,
            MessageExtra::GenerateOk(e) => ExtraView::GenerateOk { id: e.id@ },
            MessageExtra::Topology(e) => ExtraView::Topology {
                topology: topology_view(e.topology@),
            },
            MessageExtra::TopologyOk => ExtraView::TopologyOk,
            MessageExtra::Broadcast(e) => ExtraView::Broadcast { message: e.message },
            MessageExtra::BroadcastOk => ExtraView::BroadcastOk,
            MessageExtra::Read => ExtraView::Read,
            MessageExtra::ReadOk(e) => ExtraView::ReadOk { messages: e.messages@ },
            MessageExtra::Txn(e) => ExtraView::Txn { txn: queries_view(e.txn@) },
            MessageExtra::TxnOk(e) => ExtraView::TxnOk { txn: queries_view(e.txn@) },
            MessageExtra::KvRead(e) => ExtraView::KvRead { key: e.key@ },
            MessageExtra::KvReadOk(e) => ExtraView::KvReadOk { value: e.value@ },
            MessageExtra::KvWrite(e) => ExtraView::KvWrite { key: e.key@, value: e.value@ },
            MessageExtra::KvWriteOk => ExtraView::KvWriteOk,
            MessageExtra::KvCas(e) => ExtraView::KvCas {
                key: e.key@,
                from: e.from@,
                to: e.to@,
                create_if_not_exists: e.create_if_not_exists,
            },
            MessageExtra::KvCasOk => ExtraView::KvCasOk,
        }
    }
}

impl View for MessageBody {
    type V = BodyView;

    open spec fn view(&self) -> BodyView {
        BodyView { msg_id: self.msg_id, in_reply_to: self.in_reply_to, extra: self.extra@ }
    }
}

impl View for Message {
    type V = MessageView;

    open spec fn view(&self) -> MessageView {
        MessageView { src: self.src@, dest: self.dest@, body: self.body@ }
    }
}

impl Query {
    /// A copy of this operation.
    pub fn duplicate(&self) -> (r: Query)
        ensures
            r@ == self@,
    {
        let value = match &self.2 {
            QueryValue::Read(Some(list)) => QueryValue::Read(Some(list.clone())),
            QueryValue::Read(None) => QueryValue::Read(None),
            QueryValue::Append(v) => QueryValue::Append(*v),
        };
        Query(self.0.clone(), self.1, value)
    }
}

/// A copy of a run of operations.
pub fn copy_queries(ops: &Vec<Query>) -> (r: Vec<Query>)
    ensures
        queries_view(r@) == queries_view(ops@),
{
    let mut out: Vec<Query> = Vec::new();
    let mut i: usize = 0;
    while i < ops.len()
        invariant
            0 <= i <= ops.len(),
            out.len() == i,
            forall|j: int| 0 <= j < i ==> (#[trigger] out[j])@ == ops[j]@,
        decreases ops.len() - i,
    {
        out.push(ops[i].duplicate());
        i += 1;
    }
    proof {
        assert(queries_view(out@) =~= queries_view(ops@));
    }
    out
}

} // verus!

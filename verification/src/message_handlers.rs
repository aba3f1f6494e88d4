//! What the node does with each kind of payload.
//!
//! A handler takes one inbound message and the node, changes the node as
//! the payload asks, and gives the payload of the answer, if there is one.
//! What it wants sent besides the answer it puts in the node's outbox.
use crate::messages::{
    texts, topology_view, BroadcastRequestExtra, EchoResponseExtra, ExtraView,
    GenerateResponseExtra, Message, MessageBody, MessageExtra, MessageView, ReadResponseExtra,
};
use crate::node::{call, call_frame, service_name, Node, NodeView, Pending, PendingView};
use crate::snapshot::Fatal;
use crate::text::same_text;
use crate::transactor2::{begin, holds, read_of, root_name, Action, Transactor};
use vstd::prelude::*;
use vstd::string::*;

verus! {

/// A handler for one kind of payload.
pub trait MessageHandler {
    /// Whether this handler is the one for `req`.
    fn can_handle(&self, req: &Message) -> bool;

    /// Handles `req`. Gives the payload to answer with, or `None` where
    /// nothing is to be answered.
    fn handle(&self, node: &mut Node, req: &Message) -> Option<MessageExtra>;
}

/// The neighbours of a node in a topology; none for a node that the
/// topology does not name.
pub open spec fn neighbours(n: NodeView) -> Seq<Seq<char>> {
    if n.topology.contains_key(n.id) {
        n.topology[n.id]
    } else {
        Seq::empty()
    }
}

/// The node after it has passed a broadcast value on to `to`, all but the
/// one it came from: each gets a request of its own, which the node keeps
/// until it is acknowledged. A node without a `msg_id` left ends.
pub open spec fn forward(n: NodeView, to: Seq<Seq<char>>, from: Seq<char>, message: u64) -> NodeView
    decreases to.len(),
{
    if to.len() == 0 {
        n
    } else {
        let n1 = forward(n, to.drop_last(), from, message);
        let payload = ExtraView::Broadcast { message };
        if to.last() == from || n1.fault is Some {
            n1
        } else if n1.msg_id >= u64::MAX {
            NodeView { fault: Some(Fatal::Exhausted), ..n1 }
        } else {
            NodeView {
                unacked: n1.unacked.insert(n1.msg_id as u64, call_frame(n1, to.last(), payload)),
                ..call(n1, to.last(), payload)
            }
        }
    }
}

/// The node after a client has asked for a transaction: the transaction
/// is a call in progress, and its first request is sent. A node without a
/// `msg_id` left ends.
pub open spec fn start_txn(n: NodeView, req: MessageView) -> NodeView {
    if n.msg_id >= u64::MAX {
        NodeView { fault: Some(Fatal::Exhausted), ..n }
    } else {
        let started = begin(n.id, req.body.extra->Txn_txn);
        NodeView {
            pending: n.pending.push(
                PendingView {
                    txn: started.0,
                    client: req.src,
                    server: req.dest,
                    request_id: req.body.msg_id,
                    awaiting: n.msg_id as u64,
                    slot: None,
                },
            ),
            ..call(n, service_name(), read_of(root_name()))
        }
    }
}

/// What the node does with a message, by its payload: the node after it,
/// and the payload to answer with. `fresh` is the identifier that a
/// `generate` is answered with.
pub open spec fn handled(n: NodeView, req: MessageView, fresh: Seq<char>) -> (
    NodeView,
    Option<ExtraView>,
) {
    match req.body.extra {
        ExtraView::Init { node_id, node_ids } => (
            NodeView { id: node_id, node_ids, ..n },
            Some(ExtraView::InitOk),
        ),
        ExtraView::Echo { echo } => (n, Some(ExtraView::EchoOk { echo })),
        ExtraView::Generate => (n, Some(ExtraView::GenerateOk { id: fresh })),
        ExtraView::Topology { topology } => (
            NodeView { topology, ..n },
            Some(ExtraView::TopologyOk),
        ),
        ExtraView::Broadcast { message } => (
            if n.messages_seen.contains(message) {
                n
            } else {
                forward(
                    NodeView { messages_seen: n.messages_seen.push(message), ..n },
                    neighbours(n),
                    req.src,
                    message,
                )
            },
            Some(ExtraView::BroadcastOk),
        ),
        ExtraView::BroadcastOk => (
            match req.body.in_reply_to {
                Some(id) => NodeView { unacked: n.unacked.remove(id), ..n },
                None => n,
            },
            None,
        ),
        ExtraView::Read => (n, Some(ExtraView::ReadOk { messages: n.messages_seen })),
        ExtraView::Txn { txn } => (start_txn(n, req), None),
        _ => (n, None),
    }
}

/// Whether there is a handler for the payload of `req`.
pub fn handles(req: &Message) -> (r: bool)
    ensures
        r == match req@.body.extra {
            ExtraView::Error { .. } => false,
            ExtraView::KvRead { .. } => false,
            ExtraView::KvReadOk { .. } => false,
            ExtraView::KvWrite { .. } => false,
            ExtraView::KvWriteOk => false,
            ExtraView::KvCas { .. } => false,
            ExtraView::KvCasOk => false,
            _ => true,
        },
{
    InitHandler.can_handle(req) || InitOkHandler.can_handle(req) || EchoHandler.can_handle(req)
        || EchoOkHandler.can_handle(req) || GenerateHandler.can_handle(req)
        || GenerateOkHandler.can_handle(req) || TopologyHandler.can_handle(req)
        || TopologyOkHandler.can_handle(req) || BroadcastHandler.can_handle(req)
        || BroadcastOkHandler.can_handle(req) || ReadHandler.can_handle(req)
        || ReadOkHandler.can_handle(req) || TxnHandler.can_handle(req) || TxnOkHandler.can_handle(
        req,
    )
}

/// Takes `init`: the node learns its name and its peers.
pub struct InitHandler;

/// Takes `init_ok`: nothing to do.
pub struct InitOkHandler;

/// Takes `echo`: answers with what was sent.
pub struct EchoHandler;

/// Takes `echo_ok`: nothing to do.
pub struct EchoOkHandler;

/// Takes `generate`: answers with a fresh identifier.
pub struct GenerateHandler;

/// Takes `generate_ok`: nothing to do.
pub struct GenerateOkHandler;

/// Takes `topology`: the node learns its neighbours.
pub struct TopologyHandler;

/// Takes `topology_ok`: nothing to do.
pub struct TopologyOkHandler;

/// Takes `broadcast`: remembers the value and passes it on.
pub struct BroadcastHandler;

/// Takes `broadcast_ok`: the broadcast it answers needs no retry.
pub struct BroadcastOkHandler;

/// Takes `read` without a key: answers with the values seen.
pub struct ReadHandler;

/// Takes `read_ok` with `messages`: nothing to do.
pub struct ReadOkHandler;

/// Takes `txn`: sets a transaction going.
pub struct TxnHandler;

/// Takes `txn_ok`: nothing to do.
pub struct TxnOkHandler;

/// A copy of a run of strings.
pub fn copy_texts(v: &Vec<String>) -> (r: Vec<String>)
    ensures
        texts(r@) == texts(v@),
{
    let mut out: Vec<String> = Vec::new();
    let mut i: usize = 0;
    while i < v.len()
        invariant
            0 <= i <= v.len(),
            out.len() == i,
            forall|j: int| 0 <= j < i ==> (#[trigger] out[j])@ == v[j]@,
        decreases v.len() - i,
    {
        out.push(v[i].clone());
        i += 1;
    }
    proof {
        assert(texts(out@) =~= texts(v@));
    }
    out
}

/// A copy of a topology.
pub fn copy_topology(v: &Vec<(String, Vec<String>)>) -> (r: Vec<(String, Vec<String>)>)
    ensures
        topology_view(r@) == topology_view(v@),
{
    let mut out: Vec<(String, Vec<String>)> = Vec::new();
    let mut i: usize = 0;
    while i < v.len()
        invariant
            0 <= i <= v.len(),
            topology_view(out@) == topology_view(v@.take(i as int)),
        decreases v.len() - i,
    {
        let entry = (v[i].0.clone(), copy_texts(&v[i].1));
        proof {
            assert(out@.push(entry).drop_last() =~= out@);
            assert(v@.take(i + 1).drop_last() =~= v@.take(i as int));
        }
        out.push(entry);
        i += 1;
    }
    proof {
        assert(v@.take(v.len() as int) =~= v@);
    }
    out
}

/// The neighbours of the node named `name`.
pub fn find_neighbours<'a>(topology: &'a Vec<(String, Vec<String>)>, name: &str) -> (r: Option<
    &'a Vec<String>,
>)
    ensures
        match r {
            Some(v) => topology_view(topology@).contains_key(name@) && topology_view(
                topology@,
            )[name@] == texts(v@),
            None => !topology_view(topology@).contains_key(name@),
        },
{
    let mut i: usize = topology.len();
    proof {
        assert(topology@.take(i as int) =~= topology@);
    }
    while i > 0
        invariant
            0 <= i <= topology.len(),
            topology_view(topology@).contains_key(name@) == topology_view(
                topology@.take(i as int),
            ).contains_key(name@),
            topology_view(topology@).contains_key(name@) ==> topology_view(topology@)[name@]
                == topology_view(topology@.take(i as int))[name@],
        decreases i,
    {
        proof {
            let head = topology@.take(i as int);
            assert(head.drop_last() =~= topology@.take(i - 1));
            assert(head.last() == topology@[i - 1]);
        }
        i -= 1;
        if same_text(topology[i].0.as_str(), name) {
            return Some(&topology[i].1);
        }
    }
    None
}

/// `uuid::Uuid::new_v4`, written out as text. The identifier is drawn at
/// random, so nothing is said of it.
#[verifier::external_body]
fn fresh_uuid() -> (r: String) {
    uuid::Uuid::new_v4().to_string()
}

/// The answer to a `generate`, with the identifier that was drawn for it.
pub fn generated(id: String) -> (r: MessageExtra)
    ensures
        r@ == (ExtraView::GenerateOk { id: id@ }),
{
    MessageExtra::GenerateOk(GenerateResponseExtra { id })
}

impl MessageHandler for InitHandler {
    fn can_handle(&self, req: &Message) -> (r: bool)
        ensures
            r == (req@.body.extra is Init),
    {
        match req.body.extra {
            MessageExtra::Init(_) => true,
            _ => false,
        }
    }

    /// Takes the identity that the message gives the node.
    fn handle(&self, node: &mut Node, req: &Message) -> (r: Option<MessageExtra>)
        ensures
            req@.body.extra is Init ==> (final(node)@, crate::node::payload_view(r)) == handled(
                old(node)@,
                req@,
                Seq::empty(),
            ),
            !(req@.body.extra is Init) ==> r is None && final(node)@ == old(node)@,
    {
        match &req.body.extra {
            MessageExtra::Init(init) => {
                node.id = init.node_id.clone();
                node.node_ids = copy_texts(&init.node_ids);
                Some(MessageExtra::InitOk)
            },
            _ => None,
        }
    }
}

impl MessageHandler for InitOkHandler {
    fn can_handle(&self, req: &Message) -> (r: bool)
        ensures
            r == (req@.body.extra is InitOk),
    {
        match req.body.extra {
            MessageExtra::InitOk => true,
            _ => false,
        }
    }

    fn handle(&self, node: &mut Node, req: &Message) -> (r: Option<MessageExtra>)
        ensures
            r is None,
            final(node)@ == old(node)@,
    {
        None
    }
}

impl MessageHandler for EchoHandler {
    fn can_handle(&self, req: &Message) -> (r: bool)
        ensures
            r == (req@.body.extra is Echo),
    {
        match req.body.extra {
            MessageExtra::Echo(_) => true,
            _ => false,
        }
    }

    /// Answers with what was sent.
    fn handle(&self, node: &mut Node, req: &Message) -> (r: Option<MessageExtra>)
        ensures
            req@.body.extra is Echo ==> (final(node)@, crate::node::payload_view(r)) == handled(
                old(node)@,
                req@,
                Seq::empty(),
            ),
            !(req@.body.extra is Echo) ==> r is None && final(node)@ == old(node)@,
    {
        match &req.body.extra {
            MessageExtra::Echo(echo) => Some(
                MessageExtra::EchoOk(EchoResponseExtra { echo: echo.echo.clone() }),
            ),
            _ => None,
        }
    }
}

impl MessageHandler for EchoOkHandler {
    fn can_handle(&self, req: &Message) -> (r: bool)
        ensures
            r == (req@.body.extra is EchoOk),
    {
        match req.body.extra {
            MessageExtra::EchoOk(_) => true,
            _ => false,
        }
    }

    fn handle(&self, node: &mut Node, req: &Message) -> (r: Option<MessageExtra>)
        ensures
            r is None,
            final(node)@ == old(node)@,
    {
        None
    }
}

impl MessageHandler for GenerateHandler {
    fn can_handle(&self, req: &Message) -> (r: bool)
        ensures
            r == (req@.body.extra is Generate),
    {
        match req.body.extra {
            MessageExtra::Generate => true,
            _ => false,
        }
    }

    /// Answers with an identifier drawn at random.
    fn handle(&self, node: &mut Node, req: &Message) -> (r: Option<MessageExtra>)
        ensures
            final(node)@ == old(node)@,
            req@.body.extra is Generate ==> r matches Some(MessageExtra::GenerateOk(_)),
            !(req@.body.extra is Generate) ==> r is None,
    {
        match &req.body.extra {
            MessageExtra::Generate => Some(generated(fresh_uuid())),
            _ => None,
        }
    }
}

impl MessageHandler for GenerateOkHandler {
    fn can_handle(&self, req: &Message) -> (r: bool)
        ensures
            r == (req@.body.extra is GenerateOk),
    {
        match req.body.extra {
            MessageExtra::GenerateOk(_) => true,
            _ => false,
        }
    }

    fn handle(&self, node: &mut Node, req: &Message) -> (r: Option<MessageExtra>)
        ensures
            r is None,
            final(node)@ == old(node)@,
    {
        None
    }
}

impl MessageHandler for TopologyHandler {
    fn can_handle(&self, req: &Message) -> (r: bool)
        ensures
            r == (req@.body.extra is Topology),
    {
        match req.body.extra {
            MessageExtra::Topology(_) => true,
            _ => false,
        }
    }

    /// Takes the topology that the message gives the node.
    fn handle(&self, node: &mut Node, req: &Message) -> (r: Option<MessageExtra>)
        ensures
            req@.body.extra is Topology ==> (final(node)@, crate::node::payload_view(r))
                == handled(old(node)@, req@, Seq::empty()),
            !(req@.body.extra is Topology) ==> r is None && final(node)@ == old(node)@,
    {
        match &req.body.extra {
            MessageExtra::Topology(payload) => {
                node.topology = copy_topology(&payload.topology);
                Some(MessageExtra::TopologyOk)
            },
            _ => None,
        }
    }
}

impl MessageHandler for TopologyOkHandler {
    fn can_handle(&self, req: &Message) -> (r: bool)
        ensures
            r == (req@.body.extra is TopologyOk),
    {
        match req.body.extra {
            MessageExtra::TopologyOk => true,
            _ => false,
        }
    }

    fn handle(&self, node: &mut Node, req: &Message) -> (r: Option<MessageExtra>)
        ensures
            r is None,
            final(node)@ == old(node)@,
    {
        None
    }
}

impl MessageHandler for BroadcastHandler {
    fn can_handle(&self, req: &Message) -> (r: bool)
        ensures
            r == (req@.body.extra is Broadcast),
    {
        match req.body.extra {
            MessageExtra::Broadcast(_) => true,
            _ => false,
        }
    }

    /// Takes in a broadcast value. One that is new is passed on to every
    /// neighbour but the sender.
    fn handle(&self, node: &mut Node, req: &Message) -> (r: Option<MessageExtra>)
        ensures
            req@.body.extra is Broadcast ==> (final(node)@, crate::node::payload_view(r))
                == handled(old(node)@, req@, Seq::empty()),
            !(req@.body.extra is Broadcast) ==> r is None && final(node)@ == old(node)@,
    {
        let message = match &req.body.extra {
            MessageExtra::Broadcast(payload) => payload.message,
            _ => {
                return None;
            },
        };
        if holds(&node.messages_seen, message) {
            return Some(MessageExtra::BroadcastOk);
        }
        let ghost before = node@;
        let to = match find_neighbours(&node.topology, node.id.as_str()) {
            Some(v) => copy_texts(v),
            None => Vec::new(),
        };
        proof {
            if !before.topology.contains_key(before.id) {
                assert(texts(to@) =~= Seq::empty());
            }
        }
        node.messages_seen.push(message);
        let ghost start = node@;
        let ghost names = texts(to@);
        let mut i: usize = 0;
        proof {
            assert(names == neighbours(before));
            assert(start == (NodeView {
                messages_seen: before.messages_seen.push(message),
                ..before
            }));
        }
        while i < to.len()
            invariant
                0 <= i <= to.len(),
                names == texts(to@),
                node@ == forward(start, names.take(i as int), req@.src, message),
            decreases to.len() - i,
        {
            proof {
                assert(names.take(i + 1).drop_last() =~= names.take(i as int));
                assert(names.take(i + 1).last() == to[i as int]@);
            }
            if !same_text(to[i].as_str(), req.src.as_str()) && node.fault.is_none() {
                if node.msg_id == u64::MAX {
                    node.fault = Some(Fatal::Exhausted);
                } else {
                    let id = node.msg_id;
                    let kept = Message {
                        src: node.id.clone(),
                        dest: to[i].clone(),
                        body: MessageBody {
                            msg_id: Some(id),
                            in_reply_to: None,
                            extra: MessageExtra::Broadcast(BroadcastRequestExtra { message }),
                        },
                    };
                    node.unacked.insert(id, kept);
                    let _ = node.sync_rpc(
                        to[i].as_str(),
                        MessageExtra::Broadcast(BroadcastRequestExtra { message }),
                    );
                }
            }
            i += 1;
        }
        proof {
            assert(names.take(i as int) =~= names);
        }
        Some(MessageExtra::BroadcastOk)
    }
}

impl MessageHandler for BroadcastOkHandler {
    fn can_handle(&self, req: &Message) -> (r: bool)
        ensures
            r == (req@.body.extra is BroadcastOk),
    {
        match req.body.extra {
            MessageExtra::BroadcastOk => true,
            _ => false,
        }
    }

    /// Lets go of the broadcast that the message acknowledges.
    fn handle(&self, node: &mut Node, req: &Message) -> (r: Option<MessageExtra>)
        ensures
            r is None,
            final(node)@ == (match req@.body.in_reply_to {
                Some(id) => NodeView { unacked: old(node)@.unacked.remove(id), ..old(node)@ },
                None => old(node)@,
            }),
    {
        match req.body.in_reply_to {
            Some(id) => {
                node.unacked.remove(id);
            },
            None => {},
        }
        None
    }
}

impl MessageHandler for ReadHandler {
    fn can_handle(&self, req: &Message) -> (r: bool)
        ensures
            r == (req@.body.extra is Read),
    {
        match req.body.extra {
            MessageExtra::Read => true,
            _ => false,
        }
    }

    /// Answers with the broadcast values seen so far.
    fn handle(&self, node: &mut Node, req: &Message) -> (r: Option<MessageExtra>)
        ensures
            req@.body.extra is Read ==> (final(node)@, crate::node::payload_view(r)) == handled(
                old(node)@,
                req@,
                Seq::empty(),
            ),
            !(req@.body.extra is Read) ==> r is None && final(node)@ == old(node)@,
    {
        match &req.body.extra {
            MessageExtra::Read => Some(
                MessageExtra::ReadOk(ReadResponseExtra { messages: node.messages_seen.clone() }),
            ),
            _ => None,
        }
    }
}

impl MessageHandler for ReadOkHandler {
    fn can_handle(&self, req: &Message) -> (r: bool)
        ensures
            r == (req@.body.extra is ReadOk),
    {
        match req.body.extra {
            MessageExtra::ReadOk(_) => true,
            _ => false,
        }
    }

    fn handle(&self, node: &mut Node, req: &Message) -> (r: Option<MessageExtra>)
        ensures
            r is None,
            final(node)@ == old(node)@,
    {
        None
    }
}

impl MessageHandler for TxnHandler {
    fn can_handle(&self, req: &Message) -> (r: bool)
        ensures
            r == (req@.body.extra is Txn),
    {
        match req.body.extra {
            MessageExtra::Txn(_) => true,
            _ => false,
        }
    }

    /// Sets a transaction going: its first request is sent to the
    /// key-value service, and the client is answered when it is over.
    fn handle(&self, node: &mut Node, req: &Message) -> (r: Option<MessageExtra>)
        ensures
            r is None,
            req@.body.extra is Txn ==> final(node)@ == start_txn(old(node)@, req@),
            !(req@.body.extra is Txn) ==> final(node)@ == old(node)@,
    {
        match &req.body.extra {
            MessageExtra::Txn(payload) => {
                if node.msg_id == u64::MAX {
                    node.fault = Some(Fatal::Exhausted);
                    return None;
                }
                let mut txn = Transactor::new(node.id.as_str());
                match txn.transact(payload.txn.as_slice()) {
                    Action::Call(request) => {
                        proof {
                            reveal_strlit("lin-kv");
                            assert("lin-kv"@ =~= service_name());
                        }
                        let awaiting = node.sync_rpc("lin-kv", request);
                        let call = Pending {
                            txn,
                            client: req.src.clone(),
                            server: req.dest.clone(),
                            request_id: req.body.msg_id,
                            awaiting,
                            slot: None,
                        };
                        proof {
                            assert(crate::node::pending_view(node.pending@.push(call))
                                =~= crate::node::pending_view(node.pending@).push(call@));
                        }
                        node.pending.push(call);
                    },
                    _ => {
                        assert(false);
                    },
                }
                None
            },
            _ => None,
        }
    }
}

impl MessageHandler for TxnOkHandler {
    fn can_handle(&self, req: &Message) -> (r: bool)
        ensures
            r == (req@.body.extra is TxnOk),
    {
        match req.body.extra {
            MessageExtra::TxnOk(_) => true,
            _ => false,
        }
    }

    fn handle(&self, node: &mut Node, req: &Message) -> (r: Option<MessageExtra>)
        ensures
            r is None,
            final(node)@ == old(node)@,
    {
        None
    }
}

} // verus!

//! The state of a node, and what it does with one inbound message.
//!
//! The node never waits. A message that needs nothing from the key-value
//! service is answered at once. A transaction is kept as a call in
//! progress: the node sends its request to the service, and goes on with
//! it when the reply to that request comes in. Calls in progress form a
//! stack: only the one on top goes on, and a reply for one below it waits
//! in its slot until all above it are over.
use crate::idgen::IdGen;
use crate::message_handlers::{
    handled, BroadcastHandler, BroadcastOkHandler, EchoHandler, EchoOkHandler, GenerateHandler,
    GenerateOkHandler, InitHandler, InitOkHandler, MessageHandler, ReadHandler, ReadOkHandler,
    TopologyHandler, TopologyOkHandler, TxnHandler, TxnOkHandler,
};
use crate::messages::{
    texts, topology_view, BodyView, BroadcastValue, ErrorView,
    ExtraView, Message, MessageBody, MessageExtra, MessageView, QueryView,
    TxnResponseExtra,
};
use crate::snapshot::Fatal;
use crate::table::Table;
use crate::transactor2::{
    next, Action, ActionView, Phase, Transactor, TxnView, PRECONDITION_FAILED,
};
use vstd::prelude::*;
use vstd::string::*;

verus! {

/// The name of the key-value service.
pub open spec fn service_name() -> Seq<char> {
    seq!['l', 'i', 'n', '-', 'k', 'v']
}

/// A call to the key-value service that is in progress, with the
/// transaction that made it.
#[derive(Debug)]
pub struct Pending {
    pub txn: Transactor,
    /// Who asked for the transaction.
    pub client: String,
    /// Whom the client addressed.
    pub server: String,
    /// The `msg_id` of the client's request.
    pub request_id: Option<u64>,
    /// The `msg_id` of the request to the service.
    pub awaiting: u64,
    /// The payload of the reply, once it has come.
    pub slot: Option<MessageExtra>,
}

pub struct PendingView {
    pub txn: TxnView,
    pub client: Seq<char>,
    pub server: Seq<char>,
    pub request_id: Option<u64>,
    pub awaiting: u64,
    pub slot: Option<ExtraView>,
}

impl View for Pending {
    type V = PendingView;

    open spec fn view(&self) -> PendingView {
        PendingView {
            txn: self.txn@,
            client: self.client@,
            server: self.server@,
            request_id: self.request_id,
            awaiting: self.awaiting,
            slot: match self.slot {
                Some(payload) => Some(payload@),
                None => None,
            },
        }
    }
}

/// The state of a node.
#[derive(Debug)]
pub struct Node {
    pub id: String,
    pub node_ids: Vec<String>,
    /// Each node with its neighbours.
    pub topology: Vec<(String, Vec<String>)>,
    /// The broadcast values seen so far, each once.
    pub messages_seen: Vec<BroadcastValue>,
    /// The `msg_id` of the next message that the node sends.
    pub msg_id: u64,
    /// The broadcasts that no neighbour has acknowledged yet, by `msg_id`.
    pub unacked: Table<Message>,
    /// The generator of the names of chunks and partitions.
    pub ids: IdGen,
    /// The calls in progress, the latest last.
    pub pending: Vec<Pending>,
    /// The messages to send, in order.
    pub outbox: Vec<Message>,
    /// What has ended the node, if anything has.
    pub fault: Option<Fatal>,
}

#[verifier::ext_equal]
pub struct NodeView {
    pub id: Seq<char>,
    pub node_ids: Seq<Seq<char>>,
    pub topology: Map<Seq<char>, Seq<Seq<char>>>,
    pub messages_seen: Seq<u64>,
    pub msg_id: nat,
    pub unacked: Map<u64, MessageView>,
    pub issued: nat,
    pub pending: Seq<PendingView>,
    pub outbox: Seq<MessageView>,
    pub fault: Option<Fatal>,
}

/// The views of a run of calls in progress.
pub open spec fn pending_view(pending: Seq<Pending>) -> Seq<PendingView> {
    pending.map_values(|p: Pending| p@)
}

/// The views of a run of messages.
pub open spec fn messages_view(messages: Seq<Message>) -> Seq<MessageView> {
    messages.map_values(|m: Message| m@)
}

impl View for Node {
    type V = NodeView;

    open spec fn view(&self) -> NodeView {
        NodeView {
            id: self.id@,
            node_ids: texts(self.node_ids@),
            topology: topology_view(self.topology@),
            messages_seen: self.messages_seen@,
            msg_id: self.msg_id as nat,
            unacked: self.unacked@,
            issued: self.ids.issued(),
            pending: pending_view(self.pending@),
            outbox: messages_view(self.outbox@),
            fault: self.fault,
        }
    }
}

/// The view of a payload that may be there.
pub open spec fn payload_view(payload: Option<MessageExtra>) -> Option<ExtraView> {
    match payload {
        Some(p) => Some(p@),
        None => None,
    }
}

/// The node with one more message to send.
pub open spec fn emit(n: NodeView, frame: MessageView) -> NodeView {
    NodeView { outbox: n.outbox.push(frame), ..n }
}

/// The request with which the node calls `dest`.
pub open spec fn call_frame(n: NodeView, dest: Seq<char>, payload: ExtraView) -> MessageView {
    MessageView {
        src: n.id,
        dest,
        body: BodyView { msg_id: Some(n.msg_id as u64), in_reply_to: None, extra: payload },
    }
}

/// The node after it has sent a request to `dest`.
pub open spec fn call(n: NodeView, dest: Seq<char>, payload: ExtraView) -> NodeView {
    NodeView { msg_id: n.msg_id + 1, ..emit(n, call_frame(n, dest, payload)) }
}

/// The reply to a request with `msg_id` `request_id` that `client` sent to
/// `server`.
pub open spec fn reply_frame(
    n: NodeView,
    server: Seq<char>,
    client: Seq<char>,
    request_id: u64,
    payload: ExtraView,
) -> MessageView {
    MessageView {
        src: server,
        dest: client,
        body: BodyView {
            msg_id: Some(n.msg_id as u64),
            in_reply_to: Some(request_id),
            extra: payload,
        },
    }
}

/// The node after the answer to a request: a request without a `msg_id`
/// expects none and gets none; a node without a `msg_id` left ends.
pub open spec fn answer_to(
    n: NodeView,
    server: Seq<char>,
    client: Seq<char>,
    request_id: Option<u64>,
    payload: ExtraView,
) -> NodeView {
    match request_id {
        None => n,
        Some(id) => if n.msg_id >= u64::MAX {
            NodeView { fault: Some(Fatal::Exhausted), ..n }
        } else {
            NodeView {
                msg_id: n.msg_id + 1,
                ..emit(n, reply_frame(n, server, client, id, payload))
            }
        },
    }
}

/// What the client of a transaction is told at its end.
pub open spec fn outcome_payload(result: Result<Seq<QueryView>, ErrorView>) -> ExtraView {
    match result {
        Ok(txn) => ExtraView::TxnOk { txn },
        Err(e) => ExtraView::Error { code: e.code, text: e.text },
    }
}

/// Whether the call on top of the stack has its reply.
pub open spec fn top_ready(n: NodeView) -> bool {
    n.pending.len() > 0 && n.pending.last().slot is Some
}

/// How far the stack of calls is from rest.
pub open spec fn unrest(n: NodeView) -> nat {
    if top_ready(n) {
        2 * n.pending.len() + 1
    } else {
        2 * n.pending.len()
    }
}

/// The node after every call that can go on has gone on: while the call on
/// top of the stack has its reply, its transaction takes the reply. A
/// transaction that asks for more goes back on the stack with its new
/// request sent. One that is over is answered to its client, and the call
/// below it is looked at. One that fails ends the node.
pub open spec fn settle(n: NodeView) -> NodeView
    decreases unrest(n),
{
    if n.fault is Some || !top_ready(n) {
        n
    } else {
        let top = n.pending.last();
        let step = next(top.txn, top.slot.unwrap(), n.issued);
        let rest = NodeView { pending: n.pending.drop_last(), issued: step.issued, ..n };
        match step.action {
            ActionView::Call(request) => if rest.msg_id >= u64::MAX {
                NodeView { fault: Some(Fatal::Exhausted), ..rest }
            } else {
                NodeView {
                    pending: rest.pending.push(
                        PendingView {
                            txn: step.txn,
                            awaiting: rest.msg_id as u64,
                            slot: None,
                            ..top
                        },
                    ),
                    ..call(rest, service_name(), request)
                }
            },
            ActionView::Reply(result) => settle(
                answer_to(rest, top.server, top.client, top.request_id, outcome_payload(result)),
            ),
            ActionView::Fail(f) => NodeView { fault: Some(f), ..rest },
        }
    }
}

/// What the node has sent stays sent: letting calls go on only adds to
/// the outbox.
pub proof fn lemma_settle_keeps_outbox(n: NodeView)
    ensures
        settle(n).outbox.len() >= n.outbox.len(),
        forall|i: int| 0 <= i < n.outbox.len() ==> settle(n).outbox[i] == n.outbox[i],
    decreases unrest(n),
{
    if n.fault is None && top_ready(n) {
        let top = n.pending.last();
        let step = next(top.txn, top.slot.unwrap(), n.issued);
        let rest = NodeView { pending: n.pending.drop_last(), issued: step.issued, ..n };
        match step.action {
            ActionView::Reply(result) => {
                let after = answer_to(
                    rest,
                    top.server,
                    top.client,
                    top.request_id,
                    outcome_payload(result),
                );
                lemma_settle_keeps_outbox(after);
                assert(settle(n) == settle(after));
                assert forall|i: int| 0 <= i < n.outbox.len() implies settle(n).outbox[i]
                    == n.outbox[i] by {
                    assert(after.outbox[i] == n.outbox[i]);
                    assert(settle(after).outbox[i] == after.outbox[i]);
                }
            },
            _ => {},
        }
    }
}

/// Abort purity at the client: when the compare-and-set of a transaction
/// is refused with code 22, the next message that the node sends is the
/// reply to the client of that transaction, and it is that error. The
/// transaction is over with it: no `txn_ok` for it follows.
pub proof fn lemma_abort_reaches_client(n: NodeView, text: Seq<char>, id: u64)
    requires
        n.fault is None,
        n.msg_id < u64::MAX,
        n.pending.len() > 0,
        n.pending.last().txn.phase == Phase::CasRoot,
        n.pending.last().slot == Some(
            ExtraView::Error { code: PRECONDITION_FAILED, text },
        ),
        n.pending.last().request_id == Some(id),
    ensures
        settle(n).outbox.len() > n.outbox.len(),
        settle(n).outbox[n.outbox.len() as int] == reply_frame(
            n,
            n.pending.last().server,
            n.pending.last().client,
            id,
            ExtraView::Error { code: PRECONDITION_FAILED, text },
        ),
        settle(n).pending.len() < n.pending.len(),
{
    let top = n.pending.last();
    let step = next(top.txn, top.slot.unwrap(), n.issued);
    let rest = NodeView { pending: n.pending.drop_last(), issued: step.issued, ..n };
    let after = answer_to(
        rest,
        top.server,
        top.client,
        top.request_id,
        outcome_payload(step.action->Reply_0),
    );
    lemma_settle_keeps_outbox(after);
    lemma_settle_shrinks(after);
    assert(after.outbox[n.outbox.len() as int] == reply_frame(
        n,
        top.server,
        top.client,
        id,
        ExtraView::Error { code: PRECONDITION_FAILED, text },
    ));
}

/// Letting calls go on never makes the stack of calls higher.
pub proof fn lemma_settle_shrinks(n: NodeView)
    ensures
        settle(n).pending.len() <= n.pending.len(),
    decreases unrest(n),
{
    if n.fault is None && top_ready(n) {
        let top = n.pending.last();
        let step = next(top.txn, top.slot.unwrap(), n.issued);
        let rest = NodeView { pending: n.pending.drop_last(), issued: step.issued, ..n };
        match step.action {
            ActionView::Reply(result) => {
                let after = answer_to(
                    rest,
                    top.server,
                    top.client,
                    top.request_id,
                    outcome_payload(result),
                );
                lemma_settle_shrinks(after);
            },
            _ => {},
        }
    }
}

/// The place of the call that waits for the reply to `id`: the latest one
/// with that `awaiting` and an empty slot, or -1.
pub open spec fn waiter(pending: Seq<PendingView>, id: u64) -> int
    decreases pending.len(),
{
    if pending.len() == 0 {
        -1
    } else if pending.last().awaiting == id && pending.last().slot is None {
        pending.len() - 1
    } else {
        waiter(pending.drop_last(), id)
    }
}

/// The node that has seen nothing yet: no name, no message sent, no name
/// given out, nothing in progress.
pub open spec fn fresh_node() -> NodeView {
    NodeView {
        id: Seq::empty(),
        node_ids: Seq::empty(),
        topology: Map::empty(),
        messages_seen: Seq::empty(),
        msg_id: 0,
        unacked: Map::empty(),
        issued: 0,
        pending: Seq::empty(),
        outbox: Seq::empty(),
        fault: None,
    }
}

/// What the node does with a message that is no reply to a call in
/// progress: the handler for its payload takes it, and what the handler
/// gives is sent back as the answer.
pub open spec fn dispatch(n: NodeView, req: MessageView, fresh: Seq<char>) -> NodeView {
    let (n1, reply) = handled(n, req, fresh);
    match reply {
        Some(payload) => if n1.fault is Some {
            n1
        } else {
            answer_to(n1, req.dest, req.src, req.body.msg_id, payload)
        },
        None => n1,
    }
}

/// The node with the payload of a reply in the slot of the call at `at`.
pub open spec fn fill(n: NodeView, at: int, payload: ExtraView) -> NodeView {
    NodeView {
        pending: n.pending.update(at, PendingView { slot: Some(payload), ..n.pending[at] }),
        ..n
    }
}

/// What the node does with one inbound message. A node that has ended does
/// nothing. The reply to a call in progress goes into the slot of that
/// call, and every call that can go on does. Any other message goes to
/// the handler for its payload. `fresh` is the identifier that a
/// `generate` is answered with.
pub open spec fn receive(n: NodeView, req: MessageView, fresh: Seq<char>) -> NodeView {
    if n.fault is Some {
        n
    } else {
        let at = match req.body.in_reply_to {
            Some(id) => waiter(n.pending, id),
            None => -1,
        };
        if at >= 0 {
            settle(fill(n, at, req.body.extra))
        } else {
            dispatch(n, req, fresh)
        }
    }
}

/// Whether `after` and `frames` are what is left of node `n` and what it
/// sends when it has received `req`: the node as `receive` gives it, with
/// its outbox handed out.
pub open spec fn received(
    n: NodeView,
    req: MessageView,
    fresh: Seq<char>,
    after: NodeView,
    frames: Seq<MessageView>,
) -> bool {
    &&& after == (NodeView { outbox: Seq::empty(), ..receive(n, req, fresh) })
    &&& frames == receive(n, req, fresh).outbox
}

impl Node {
    /// A node that has seen nothing yet.
    pub fn new() -> (r: Node)
        ensures
            r@ == fresh_node(),
    {
        let r = Node {
            id: String::new(),
            node_ids: Vec::new(),
            topology: Vec::new(),
            messages_seen: Vec::new(),
            msg_id: 0,
            unacked: Table::new(),
            ids: IdGen::new(),
            pending: Vec::new(),
            outbox: Vec::new(),
            fault: None,
        };
        proof {
            assert(r@.node_ids =~= Seq::empty());
            assert(r@.pending =~= Seq::empty());
            assert(r@.outbox =~= Seq::empty());
        }
        r
    }

    /// The `msg_id` for the next message to send. Each call gives a
    /// greater one.
    pub fn next_msg_id(&mut self) -> (r: u64)
        requires
            old(self).msg_id < u64::MAX,
        ensures
            r == old(self).msg_id,
            final(self)@ == (NodeView { msg_id: old(self)@.msg_id + 1, ..old(self)@ }),
    {
        let id = self.msg_id;
        self.msg_id = self.msg_id + 1;
        id
    }

    /// Puts a message in the outbox.
    pub fn send(&mut self, res: Message)
        ensures
            final(self)@ == emit(old(self)@, res@),
    {
        proof {
            assert(messages_view(self.outbox@.push(res)) =~= messages_view(self.outbox@).push(
                res@,
            ));
        }
        self.outbox.push(res);
    }

    /// Sends a request to `dest` and gives its `msg_id`, to which the reply
    /// will refer.
    pub fn sync_rpc(&mut self, dest: &str, payload: MessageExtra) -> (r: u64)
        requires
            old(self).msg_id < u64::MAX,
        ensures
            r == old(self).msg_id,
            final(self)@ == call(old(self)@, dest@, payload@),
    {
        let src = self.id.clone();
        let id = self.next_msg_id();
        let req = Message {
            src,
            dest: String::from_str(dest),
            body: MessageBody { msg_id: Some(id), in_reply_to: None, extra: payload },
        };
        self.send(req);
        id
    }
}

impl Node {
    /// The place of the call that waits for the reply to `id`.
    fn find_waiter(&self, id: u64) -> (r: Option<usize>)
        ensures
            match r {
                Some(i) => i == waiter(self@.pending, id) && i < self.pending.len(),
                None => waiter(self@.pending, id) < 0,
            },
    {
        let ghost all = pending_view(self.pending@);
        let mut i: usize = self.pending.len();
        proof {
            assert(all.take(i as int) =~= all);
        }
        while i > 0
            invariant
                0 <= i <= self.pending.len(),
                all == pending_view(self.pending@),
                waiter(all, id) == waiter(all.take(i as int), id),
            decreases i,
        {
            proof {
                assert(all.take(i as int).drop_last() =~= all.take(i - 1));
                assert(all.take(i as int).last() == self.pending[i - 1]@);
            }
            i -= 1;
            if self.pending[i].awaiting == id && self.pending[i].slot.is_none() {
                return Some(i);
            }
        }
        None
    }

    /// Sends the answer to a request, if the request expects one.
    fn answer(&mut self, server: String, client: String, request_id: Option<u64>, payload: MessageExtra)
        ensures
            final(self)@ == answer_to(old(self)@, server@, client@, request_id, payload@),
    {
        match request_id {
            None => {},
            Some(id) => {
                if self.msg_id == u64::MAX {
                    self.fault = Some(Fatal::Exhausted);
                } else {
                    let msg_id = self.next_msg_id();
                    self.send(
                        Message {
                            src: server,
                            dest: client,
                            body: MessageBody {
                                msg_id: Some(msg_id),
                                in_reply_to: Some(id),
                                extra: payload,
                            },
                        },
                    );
                }
            },
        }
    }

    /// Lets every call that can go on go on.
    #[verifier::rlimit(80)]
    fn settle(&mut self)
        ensures
            final(self)@ == settle(old(self)@),
    {
        loop
            invariant
                settle(self@) == settle(old(self)@),
            ensures
                self@ == settle(old(self)@),
            decreases unrest(self@),
        {
            if self.fault.is_some() || self.pending.len() == 0 {
                break ;
            }
            let ghost n = self@;
            let ghost stack = self.pending@;
            proof {
                assert(pending_view(stack).last() == stack.last()@);
            }
            if self.pending[self.pending.len() - 1].slot.is_none() {
                break ;
            }
            let top = match self.pending.pop() {
                Some(top) => top,
                None => {
                    break ;
                },
            };
            proof {
                assert(pending_view(self.pending@) =~= n.pending.drop_last());
            }
            let Pending { txn, client, server, request_id, awaiting, slot } = top;
            let mut txn = txn;
            let payload = match slot {
                Some(payload) => payload,
                None => {
                    break ;
                },
            };
            match txn.resume(&payload, &mut self.ids) {
                Action::Call(request) => {
                    if self.msg_id == u64::MAX {
                        self.fault = Some(Fatal::Exhausted);
                    } else {
                        proof {
                            reveal_strlit("lin-kv");
                            assert("lin-kv"@ =~= service_name());
                        }
                        let awaiting = self.sync_rpc("lin-kv", request);
                        let call = Pending { txn, client, server, request_id, awaiting, slot: None };
                        proof {
                            assert(pending_view(self.pending@.push(call)) =~= pending_view(
                                self.pending@,
                            ).push(call@));
                        }
                        self.pending.push(call);
                    }
                    proof {
                        assert(self@ == settle(n));
                    }
                    break ;
                },
                Action::Reply(result) => {
                    let extra = match result {
                        Ok(txn) => MessageExtra::TxnOk(TxnResponseExtra { txn }),
                        Err(e) => MessageExtra::Error(e),
                    };
                    self.answer(server, client, request_id, extra);
                },
                Action::Fail(f) => {
                    self.fault = Some(f);
                    proof {
                        assert(self@ == settle(n));
                    }
                    break ;
                },
            }
        }
    }

    /// Hands the message to the handler for its payload, and sends what
    /// the handler gives back as the answer.
    fn dispatch(&mut self, req: &Message) -> (fresh: Ghost<Seq<char>>)
        ensures
            final(self)@ == dispatch(old(self)@, req@, fresh@),
            !(req@.body.extra is Generate) ==> fresh@ == Seq::<char>::empty(),
    {
        let ghost mut fresh: Seq<char> = Seq::empty();
        let reply = match &req.body.extra {
            MessageExtra::Init(_) => InitHandler.handle(self, req),
            MessageExtra::InitOk => InitOkHandler.handle(self, req),
            MessageExtra::Echo(_) => EchoHandler.handle(self, req),
            MessageExtra::EchoOk(_) => EchoOkHandler.handle(self, req),
            MessageExtra::Generate => {
                let reply = GenerateHandler.handle(self, req);
                proof {
                    fresh = reply->Some_0@->GenerateOk_id;
                }
                reply
            },
            MessageExtra::GenerateOk(_) => GenerateOkHandler.handle(self, req),
            MessageExtra::Topology(_) => TopologyHandler.handle(self, req),
            MessageExtra::TopologyOk => TopologyOkHandler.handle(self, req),
            MessageExtra::Broadcast(_) => BroadcastHandler.handle(self, req),
            MessageExtra::BroadcastOk => BroadcastOkHandler.handle(self, req),
            MessageExtra::Read => ReadHandler.handle(self, req),
            MessageExtra::ReadOk(_) => ReadOkHandler.handle(self, req),
            MessageExtra::Txn(_) => TxnHandler.handle(self, req),
            MessageExtra::TxnOk(_) => TxnOkHandler.handle(self, req),
            MessageExtra::Error(_) => None,
            MessageExtra::KvRead(_) => None,
            MessageExtra::KvReadOk(_) => None,
            MessageExtra::KvWrite(_) => None,
            MessageExtra::KvWriteOk => None,
            MessageExtra::KvCas(_) => None,
            MessageExtra::KvCasOk => None,
        };
        match reply {
            Some(payload) => {
                if self.fault.is_none() {
                    self.answer(req.dest.clone(), req.src.clone(), req.body.msg_id, payload);
                }
            },
            None => {},
        }
        Ghost(fresh)
    }

    /// Takes in one inbound message and gives the messages to send for it,
    /// in order. Afterwards `fault` tells whether the node has ended.
    pub fn handle_message(&mut self, req: Message) -> (frames: Vec<Message>)
        ensures
            !(req@.body.extra is Generate) ==> received(
                old(self)@,
                req@,
                Seq::empty(),
                final(self)@,
                messages_view(frames@),
            ),
            exists|fresh: Seq<char>| #[trigger]
                received(old(self)@, req@, fresh, final(self)@, messages_view(frames@)),
    {
        let ghost n = self@;
        let ghost mut fresh: Seq<char> = Seq::empty();
        if self.fault.is_none() {
            let at = match req.body.in_reply_to {
                Some(id) => self.find_waiter(id),
                None => None,
            };
            match at {
                Some(i) => {
                    let Message { src, dest, body } = req;
                    let ghost payload = body.extra@;
                    let mut call = self.pending.remove(i);
                    call.slot = Some(body.extra);
                    self.pending.insert(i, call);
                    proof {
                        assert(pending_view(self.pending@) =~= n.pending.update(
                            i as int,
                            PendingView { slot: Some(payload), ..n.pending[i as int] },
                        ));
                        assert(self@ == fill(n, i as int, payload));
                    }
                    self.settle();
                },
                None => {
                    let drawn = self.dispatch(&req);
                    proof {
                        fresh = drawn@;
                    }
                },
            }
        }
        let ghost after = self@;
        let mut frames: Vec<Message> = Vec::new();
        std::mem::swap(&mut self.outbox, &mut frames);
        proof {
            assert(messages_view(self.outbox@) =~= Seq::empty());
            assert(after == receive(n, req@, fresh));
            assert(received(n, req@, fresh, self@, messages_view(frames@)));
        }
        frames
    }
}

impl Default for Node {
    fn default() -> (r: Node)
        ensures
            r@ == fresh_node(),
    {
        Node::new()
    }
}

} // verus!

//! Message envelopes and their mathematical views.
//!
//! One envelope is a routed unit with a source, a destination, and a typed
//! body. Every acknowledgment body carries `in_reply_to` equal to the
//! `msg_id` of the request it answers; correlation is purely by that id plus
//! the sender's identity. `Tick` is synthetic (source and destination are
//! this node) and never crosses the transport: it is produced by the
//! anti-entropy timer alone.

use vstd::prelude::*;

verus! {

/// One routed message: source node, destination node, and a typed body.
#[derive(Debug, Clone, PartialEq, Eq)]
pub struct Message<T> {
    pub src: String,
    pub dest: String,
    pub body: T,
}

/// The body of an envelope, one variant per protocol message.
#[derive(Debug, Clone, PartialEq, Eq)]
pub enum Body {
    /// A client asks this node to record one value.
    Broadcast { msg_id: usize, message: i32 },
    /// Reply to `Broadcast`.
    BroadcastOk { msg_id: usize, in_reply_to: usize },
    /// A client asks for every value this node has accumulated.
    Read { msg_id: usize },
    /// Reply to `Read`, carrying the full snapshot.
    ReadOk { msg_id: usize, in_reply_to: usize, messages: Vec<i32> },
    /// A client hands out a topology; acknowledged but otherwise ignored,
    /// since the fan-out list is fixed at startup.
    Topology { msg_id: usize },
    /// Reply to `Topology`.
    TopologyOk { msg_id: usize, in_reply_to: usize },
    /// A peer hands over a batch of values plus the peers the recipient
    /// should keep forwarding them to.
    Gossip { msg_id: usize, messages: Vec<i32>, nodes: Vec<String> },
    /// Reply to `Gossip`, awaited by the sender's acknowledgment tracker.
    GossipOk { msg_id: usize, in_reply_to: usize },
    /// The startup handshake: establishes this node's identity and peers.
    Init { msg_id: usize, node_id: String, node_ids: Vec<String> },
    /// Reply to `Init`.
    InitOk { in_reply_to: usize },
    /// The synthetic anti-entropy timer signal.
    Tick,
}

/// The views of a sequence of node identifiers, in order.
pub open spec fn ids_view(s: Seq<String>) -> Seq<Seq<char>> {
    Seq::new(s.len(), |i: int| s[i]@)
}

/// The view of a body: ids as unbounded integers, strings as character
/// sequences, vectors as sequences.
#[verifier::ext_equal]
pub enum BodyView {
    Broadcast { msg_id: int, message: i32 },
    BroadcastOk { msg_id: int, in_reply_to: int },
    Read { msg_id: int },
    ReadOk { msg_id: int, in_reply_to: int, messages: Seq<i32> },
    Topology { msg_id: int },
    TopologyOk { msg_id: int, in_reply_to: int },
    Gossip { msg_id: int, messages: Seq<i32>, nodes: Seq<Seq<char>> },
    GossipOk { msg_id: int, in_reply_to: int },
    Init { msg_id: int, node_id: Seq<char>, node_ids: Seq<Seq<char>> },
    InitOk { in_reply_to: int },
    Tick,
}

/// The view of a whole envelope.
#[verifier::ext_equal]
pub struct MsgView {
    pub src: Seq<char>,
    pub dest: Seq<char>,
    pub body: BodyView,
}

impl View for Body {
    type V = BodyView;

    open spec fn view(&self) -> BodyView {
        match self {
            Body::Broadcast { msg_id, message } => BodyView::Broadcast {
                msg_id: *msg_id as int,
                message: *message,
            },
            Body::BroadcastOk { msg_id, in_reply_to } => BodyView::BroadcastOk {
                msg_id: *msg_id as int,
                in_reply_to: *in_reply_to as int,
            },
            Body::Read { msg_id } => BodyView::Read { msg_id: *msg_id as int },
            Body::ReadOk { msg_id, in_reply_to, messages } => BodyView::ReadOk {
                msg_id: *msg_id as int,
                in_reply_to: *in_reply_to as int,
                messages: messages@,
            },
            Body::Topology { msg_id } => BodyView::Topology { msg_id: *msg_id as int },
            Body::TopologyOk { msg_id, in_reply_to } => BodyView::TopologyOk {
                msg_id: *msg_id as int,
                in_reply_to: *in_reply_to as int,
            },
            Body::Gossip { msg_id, messages, nodes } => BodyView::Gossip {
                msg_id: *msg_id as int,
                messages: messages@,
                nodes: ids_view(nodes@),
            },
            Body::GossipOk { msg_id, in_reply_to } => BodyView::GossipOk {
                msg_id: *msg_id as int,
                in_reply_to: *in_reply_to as int,
            },
            Body::Init { msg_id, node_id, node_ids } => BodyView::Init {
                msg_id: *msg_id as int,
                node_id: node_id@,
                node_ids: ids_view(node_ids@),
            },
            Body::InitOk { in_reply_to } => BodyView::InitOk {
                in_reply_to: *in_reply_to as int,
            },
            Body::Tick => BodyView::Tick,
        }
    }
}

impl View for Message<Body> {
    type V = MsgView;

    open spec fn view(&self) -> MsgView {
        MsgView { src: self.src@, dest: self.dest@, body: self.body@ }
    }
}

/// The views of a sequence of envelopes, in order.
pub open spec fn msgs_view(s: Seq<Message<Body>>) -> Seq<MsgView> {
    s.map_values(|m: Message<Body>| m@)
}

/// Copies a list of node identifiers.
pub fn clone_ids(v: &Vec<String>) -> (r: Vec<String>)
    ensures
        r@ == v@,
{
    let mut r: Vec<String> = Vec::new();
    let mut i: usize = 0;
    while i < v.len()
        invariant
            0 <= i <= v@.len(),
            r@ == v@.take(i as int),
        decreases v@.len() - i,
    {
        r.push(v[i].clone());
        assert(r@ =~= v@.take(i + 1 as int));
        i = i + 1;
    }
    proof {
        assert(v@.take(v@.len() as int) =~= v@);
    }
    r
}

/// Appending an envelope appends its view.
pub proof fn lemma_msgs_view_push(s: Seq<Message<Body>>, m: Message<Body>)
    ensures
        msgs_view(s.push(m)) == msgs_view(s).push(m@),
{
    assert(msgs_view(s.push(m)) =~= msgs_view(s).push(m@));
}

} // verus!

//! The dispatch core: one node's state and its step function.
//!
//! A node owns its identity, its fixed peer list, the monotone message-id
//! counter, and the dedup store. The dispatch loop feeds it one envelope at
//! a time; each envelope maps to a state update plus an ordered batch of
//! outbound envelopes, described exactly by `spec_step`. All mutation is
//! single-threaded: the transport reader and the anti-entropy timer only
//! enqueue envelopes, they never touch this state.

use vstd::prelude::*;
use crate::envelope::{ids_view, lemma_msgs_view_push, msgs_view, Body, BodyView, Message, MsgView};
use crate::fanout;
use crate::fanout::{spec_first_half, spec_second_half};
use crate::store::{spec_record, spec_record_all, DedupStore};

verus! {

/// A node's identity: its own id plus the fixed, ordered peer list
/// (excluding the node itself). Set once at startup, immutable afterwards.
#[derive(Debug)]
pub struct NodeInit {
    pub id: String,
    pub node_ids: Vec<String>,
}

/// One broadcast node: identity, message-id counter, and dedup store.
pub struct Node {
    pub message_id: usize,
    pub init: NodeInit,
    pub store: DedupStore,
}

/// The mathematical state of a node.
#[verifier::ext_equal]
pub struct NodeView {
    pub id: Seq<char>,
    pub peers: Seq<Seq<char>>,
    pub message_id: int,
    pub store: Seq<i32>,
}

impl View for Node {
    type V = NodeView;

    open spec fn view(&self) -> NodeView {
        NodeView {
            id: self.init.id@,
            peers: ids_view(self.init.node_ids@),
            message_id: self.message_id as int,
            store: self.store@,
        }
    }
}

/// The gossip envelope sent to the head of a group, instructing it to keep
/// forwarding `values` to the rest of the group.
pub open spec fn spec_gossip_msg(
    src: Seq<char>,
    msg_id: int,
    group: Seq<Seq<char>>,
    values: Seq<i32>,
) -> MsgView {
    MsgView {
        src,
        dest: group[0],
        body: BodyView::Gossip { msg_id, messages: values, nodes: group.skip(1) },
    }
}

/// Gossiping `values` to one group: nothing for an empty group; otherwise
/// one fresh-id gossip envelope to the group's head, carrying the tail.
pub open spec fn spec_gossip_step(node: NodeView, group: Seq<Seq<char>>, values: Seq<i32>) -> (
    NodeView,
    Seq<MsgView>,
) {
    if group.len() == 0 {
        (node, Seq::<MsgView>::empty())
    } else {
        (
            NodeView { message_id: node.message_id + 1, ..node },
            seq![spec_gossip_msg(node.id, node.message_id + 1, group, values)],
        )
    }
}

/// Fanning `values` out to a peer list: one gossip to the head of each
/// positional half, ids issued in order.
pub open spec fn spec_fan_out(node: NodeView, group: Seq<Seq<char>>, values: Seq<i32>) -> (
    NodeView,
    Seq<MsgView>,
) {
    let (n1, out1) = spec_gossip_step(node, spec_first_half(group), values);
    let (n2, out2) = spec_gossip_step(n1, spec_second_half(group), values);
    (n2, out1 + out2)
}

/// One dispatch step: the node state after handling `m` and the outbound
/// envelopes it emits, in order.
///
/// - A client `Broadcast` is recorded and acknowledged; a newly observed
///   value fans out to both halves of the fixed peer list.
/// - A `Read` is answered with the full snapshot.
/// - A `Topology` is acknowledged and otherwise ignored: the fan-out list
///   stays the one fixed at startup.
/// - Peer `Gossip` is recorded and acknowledged, then forwarded to both
///   halves of the forwarding list it carried (not the full peer list).
/// - A `Tick` re-gossips the entire known set to both halves of the peer
///   list (anti-entropy).
/// - Anything else (acknowledgments nobody is waiting for, stray handshake
///   traffic) is discarded silently.
pub open spec fn spec_step(node: NodeView, m: MsgView) -> (NodeView, Seq<MsgView>) {
    match m.body {
        BodyView::Broadcast { msg_id, message } => {
            let newly = !node.store.contains(message);
            let n1 = NodeView {
                store: spec_record(node.store, message),
                message_id: node.message_id + 1,
                ..node
            };
            let ack = MsgView {
                src: node.id,
                dest: m.src,
                body: BodyView::BroadcastOk { msg_id: node.message_id + 1, in_reply_to: msg_id },
            };
            if newly {
                let (n2, gossips) = spec_fan_out(n1, node.peers, seq![message]);
                (n2, seq![ack] + gossips)
            } else {
                (n1, seq![ack])
            }
        },
        BodyView::Read { msg_id } => {
            let n1 = NodeView { message_id: node.message_id + 1, ..node };
            let reply = MsgView {
                src: node.id,
                dest: m.src,
                body: BodyView::ReadOk {
                    msg_id: node.message_id + 1,
                    in_reply_to: msg_id,
                    messages: node.store,
                },
            };
            (n1, seq![reply])
        },
        BodyView::Topology { msg_id } => {
            let n1 = NodeView { message_id: node.message_id + 1, ..node };
            let reply = MsgView {
                src: node.id,
                dest: m.src,
                body: BodyView::TopologyOk { msg_id: node.message_id + 1, in_reply_to: msg_id },
            };
            (n1, seq![reply])
        },
        BodyView::Gossip { msg_id, messages, nodes } => {
            let n1 = NodeView {
                store: spec_record_all(node.store, messages),
                message_id: node.message_id + 1,
                ..node
            };
            let ack = MsgView {
                src: node.id,
                dest: m.src,
                body: BodyView::GossipOk { msg_id: node.message_id + 1, in_reply_to: msg_id },
            };
            let (n2, gossips) = spec_fan_out(n1, nodes, messages);
            (n2, seq![ack] + gossips)
        },
        BodyView::Tick => spec_fan_out(node, node.peers, node.store),
        _ => (node, Seq::<MsgView>::empty()),
    }
}

impl Node {
    /// The dedup store's backing vector holds no duplicates.
    pub open spec fn well_formed(&self) -> bool {
        self.store.well_formed()
    }

    /// A fresh node around an identity: counter at zero, empty store.
    pub fn new(init: NodeInit) -> (r: Node)
        ensures
            r.well_formed(),
            r@.id == init.id@,
            r@.peers == ids_view(init.node_ids@),
            r@.message_id == 0,
            r@.store == Seq::<i32>::empty(),
    {
        Node { message_id: 0, init, store: DedupStore::new() }
    }

    /// Issues the next message id: the counter increments by one and the
    /// fresh value is returned. Ids are never reused and never reset.
    pub fn next_message_id(&mut self) -> (r: usize)
        requires
            old(self).message_id < usize::MAX,
        ensures
            final(self).message_id == old(self).message_id + 1,
            r == final(self).message_id,
            final(self).init == old(self).init,
            final(self).store == old(self).store,
    {
        self.message_id = self.message_id + 1;
        self.message_id
    }

    /// Builds the gossip envelope for one group, or nothing for an empty
    /// group: the group's head is the recipient, the tail rides along as the
    /// peers the recipient must keep forwarding to. Consumes one fresh
    /// message id exactly when an envelope is produced.
    pub fn gossip_to(&mut self, group: &Vec<String>, messages: &Vec<i32>) -> (r: Option<
        Message<Body>,
    >)
        requires
            old(self).message_id < usize::MAX,
        ensures
            final(self).init == old(self).init,
            final(self).store == old(self).store,
            ({
                let (n, out) = spec_gossip_step(old(self)@, ids_view(group@), messages@);
                &&& final(self)@ == n
                &&& match r {
                    Option::None => out == Seq::<MsgView>::empty(),
                    Option::Some(m) => out == seq![m@],
                }
            }),
    {
        match fanout::select(group) {
            Option::None => None,
            Option::Some((head, tail)) => {
                let msg_id = self.next_message_id();
                let m = Message {
                    src: self.init.id.clone(),
                    dest: head,
                    body: Body::Gossip { msg_id, messages: messages.clone(), nodes: tail },
                };
                proof {
                    assert(m@ =~= spec_gossip_msg(
                        old(self)@.id,
                        old(self)@.message_id + 1,
                        ids_view(group@),
                        messages@,
                    ));
                    assert(self@ =~= spec_gossip_step(
                        old(self)@,
                        ids_view(group@),
                        messages@,
                    ).0);
                }
                Some(m)
            },
        }
    }

    /// Handles one inbound envelope: updates the node state and returns the
    /// outbound envelopes to send, in order, exactly as `spec_step` says.
    /// Unexpected variants are discarded silently. The identity and the peer
    /// list never change.
    pub fn handle(&mut self, msg: &Message<Body>) -> (out: Vec<Message<Body>>)
        requires
            old(self).well_formed(),
            old(self).message_id + 3 <= usize::MAX,
        ensures
            final(self).well_formed(),
            final(self).init == old(self).init,
            final(self)@ == spec_step(old(self)@, msg@).0,
            msgs_view(out@) == spec_step(old(self)@, msg@).1,
    {
        let mut out: Vec<Message<Body>> = Vec::new();
        proof {
            assert(msgs_view(out@) =~= Seq::<MsgView>::empty());
        }
        match &msg.body {
            Body::Broadcast { msg_id, message } => {
                let newly = self.store.record(*message);
                let ack_id = self.next_message_id();
                let ack = Message {
                    src: self.init.id.clone(),
                    dest: msg.src.clone(),
                    body: Body::BroadcastOk { msg_id: ack_id, in_reply_to: *msg_id },
                };
                proof {
                    lemma_msgs_view_push(out@, ack);
                }
                out.push(ack);
                if newly {
                    let mut values: Vec<i32> = Vec::new();
                    values.push(*message);
                    proof {
                        assert(values@ =~= seq![*message]);
                    }
                    let (a, b) = fanout::split(&self.init.node_ids);
                    let r1 = self.gossip_to(&a, &values);
                    if let Some(m) = r1 {
                        proof {
                            lemma_msgs_view_push(out@, m);
                        }
                        out.push(m);
                    }
                    let r2 = self.gossip_to(&b, &values);
                    if let Some(m) = r2 {
                        proof {
                            lemma_msgs_view_push(out@, m);
                        }
                        out.push(m);
                    }
                    proof {
                        assert(msgs_view(out@) =~= spec_step(old(self)@, msg@).1);
                        assert(self@ =~= spec_step(old(self)@, msg@).0);
                    }
                } else {
                    proof {
                        assert(msgs_view(out@) =~= spec_step(old(self)@, msg@).1);
                        assert(self@ =~= spec_step(old(self)@, msg@).0);
                    }
                }
            },
            Body::Read { msg_id } => {
                let values = self.store.snapshot();
                let reply_id = self.next_message_id();
                let reply = Message {
                    src: self.init.id.clone(),
                    dest: msg.src.clone(),
                    body: Body::ReadOk {
                        msg_id: reply_id,
                        in_reply_to: *msg_id,
                        messages: values,
                    },
                };
                proof {
                    lemma_msgs_view_push(out@, reply);
                }
                out.push(reply);
                proof {
                    assert(msgs_view(out@) =~= spec_step(old(self)@, msg@).1);
                    assert(self@ =~= spec_step(old(self)@, msg@).0);
                }
            },
            Body::Topology { msg_id } => {
                let reply_id = self.next_message_id();
                let reply = Message {
                    src: self.init.id.clone(),
                    dest: msg.src.clone(),
                    body: Body::TopologyOk { msg_id: reply_id, in_reply_to: *msg_id },
                };
                proof {
                    lemma_msgs_view_push(out@, reply);
                }
                out.push(reply);
                proof {
                    assert(msgs_view(out@) =~= spec_step(old(self)@, msg@).1);
                    assert(self@ =~= spec_step(old(self)@, msg@).0);
                }
            },
            Body::Gossip { msg_id, messages, nodes } => {
                self.store.record_all(messages);
                let ack_id = self.next_message_id();
                let ack = Message {
                    src: self.init.id.clone(),
                    dest: msg.src.clone(),
                    body: Body::GossipOk { msg_id: ack_id, in_reply_to: *msg_id },
                };
                proof {
                    lemma_msgs_view_push(out@, ack);
                }
                out.push(ack);
                let (a, b) = fanout::split(nodes);
                let r1 = self.gossip_to(&a, messages);
                if let Some(m) = r1 {
                    proof {
                        lemma_msgs_view_push(out@, m);
                    }
                    out.push(m);
                }
                let r2 = self.gossip_to(&b, messages);
                if let Some(m) = r2 {
                    proof {
                        lemma_msgs_view_push(out@, m);
                    }
                    out.push(m);
                }
                proof {
                    assert(msgs_view(out@) =~= spec_step(old(self)@, msg@).1);
                    assert(self@ =~= spec_step(old(self)@, msg@).0);
                }
            },
            Body::Tick => {
                let values = self.store.snapshot();
                let (a, b) = fanout::split(&self.init.node_ids);
                let r1 = self.gossip_to(&a, &values);
                if let Some(m) = r1 {
                    proof {
                        lemma_msgs_view_push(out@, m);
                    }
                    out.push(m);
                }
                let r2 = self.gossip_to(&b, &values);
                if let Some(m) = r2 {
                    proof {
                        lemma_msgs_view_push(out@, m);
                    }
                    out.push(m);
                }
                proof {
                    assert(msgs_view(out@) =~= spec_step(old(self)@, msg@).1);
                    assert(self@ =~= spec_step(old(self)@, msg@).0);
                }
            },
            Body::BroadcastOk { .. } => {},
            Body::ReadOk { .. } => {},
            Body::TopologyOk { .. } => {},
            Body::GossipOk { .. } => {},
            Body::Init { .. } => {},
            Body::InitOk { .. } => {},
        }
        out
    }
}

/// The values one envelope can introduce into a node: a client broadcast's
/// value or a gossip batch. No other envelope carries values inward.
pub open spec fn spec_values_of(m: MsgView) -> Set<i32> {
    match m.body {
        BodyView::Broadcast { message, .. } => Set::<i32>::empty().insert(message),
        BodyView::Gossip { messages, .. } => messages.to_set(),
        _ => Set::<i32>::empty(),
    }
}

/// The node state after dispatching a whole trace of envelopes, in order.
pub open spec fn spec_run(node: NodeView, trace: Seq<MsgView>) -> NodeView
    decreases trace.len(),
{
    if trace.len() == 0 {
        node
    } else {
        spec_run(spec_step(node, trace[0]).0, trace.skip(1))
    }
}

/// Every value some envelope of the trace carried inward.
pub open spec fn spec_submitted(trace: Seq<MsgView>) -> Set<i32>
    decreases trace.len(),
{
    if trace.len() == 0 {
        Set::<i32>::empty()
    } else {
        spec_values_of(trace[0]).union(spec_submitted(trace.skip(1)))
    }
}

/// One step never shrinks the store: everything recorded before handling an
/// envelope is still recorded after it, whatever the envelope was; and the
/// identity, the peer list and the store's freedom from duplicates survive.
pub proof fn lemma_step_never_shrinks(node: NodeView, m: MsgView)
    ensures
        node.store.is_prefix_of(spec_step(node, m).0.store),
        crate::store::spec_no_dup(node.store) ==> crate::store::spec_no_dup(
            spec_step(node, m).0.store,
        ),
        spec_step(node, m).0.id == node.id,
        spec_step(node, m).0.peers == node.peers,
{
    let r = spec_step(node, m).0;
    match m.body {
        BodyView::Broadcast { msg_id, message } => {
            crate::store::lemma_record_grows(node.store, message);
            if crate::store::spec_no_dup(node.store) {
                crate::store::lemma_record_no_dup(node.store, message);
            }
            assert(r.store == spec_record(node.store, message));
        },
        BodyView::Gossip { msg_id, messages, nodes } => {
            crate::store::lemma_record_all_grows(node.store, messages);
            assert(r.store == spec_record_all(node.store, messages));
        },
        _ => {
            assert(node.store =~= r.store.subrange(0, node.store.len() as int));
        },
    }
}

/// No spurious values, one step: handling an envelope adds at most the
/// values that envelope itself carried.
pub proof fn lemma_step_no_spurious(node: NodeView, m: MsgView)
    ensures
        spec_step(node, m).0.store.to_set().subset_of(
            node.store.to_set().union(spec_values_of(m)),
        ),
{
    let r = spec_step(node, m).0;
    match m.body {
        BodyView::Broadcast { msg_id, message } => {
            crate::store::lemma_record_to_set(node.store, message);
            assert(r.store == spec_record(node.store, message));
            assert(node.store.to_set().insert(message) =~= node.store.to_set().union(
                Set::<i32>::empty().insert(message),
            ));
        },
        BodyView::Gossip { msg_id, messages, nodes } => {
            crate::store::lemma_record_all_to_set(node.store, messages);
            assert(r.store == spec_record_all(node.store, messages));
        },
        _ => {
            assert(r.store == node.store);
        },
    }
}

/// No spurious values (law): after any trace of envelopes, a node's store
/// holds only values it started with or values that arrived in some
/// `Broadcast` or `Gossip` of the trace — never fabricated ones.
pub proof fn lemma_no_spurious_values(node: NodeView, trace: Seq<MsgView>)
    ensures
        spec_run(node, trace).store.to_set().subset_of(
            node.store.to_set().union(spec_submitted(trace)),
        ),
    decreases trace.len(),
{
    if trace.len() > 0 {
        let n1 = spec_step(node, trace[0]).0;
        lemma_step_no_spurious(node, trace[0]);
        lemma_no_spurious_values(n1, trace.skip(1));
        assert forall|x: i32| spec_run(node, trace).store.to_set().contains(x) implies node.store
            .to_set().union(spec_submitted(trace)).contains(x) by {
            assert(n1.store.to_set().union(spec_submitted(trace.skip(1))).contains(x));
        }
    }
}

/// The store never shrinks, over any whole trace: every value recorded at
/// any point is still there after every later envelope, and the identity
/// and peer list never change.
pub proof fn lemma_run_never_shrinks(node: NodeView, trace: Seq<MsgView>)
    ensures
        node.store.is_prefix_of(spec_run(node, trace).store),
        spec_run(node, trace).id == node.id,
        spec_run(node, trace).peers == node.peers,
    decreases trace.len(),
{
    if trace.len() == 0 {
        assert(node.store =~= spec_run(node, trace).store.subrange(0, node.store.len() as int));
    } else {
        let n1 = spec_step(node, trace[0]).0;
        lemma_step_never_shrinks(node, trace[0]);
        lemma_run_never_shrinks(n1, trace.skip(1));
        let r = spec_run(node, trace).store;
        assert(node.store =~= r.subrange(0, node.store.len() as int));
    }
}

/// The peers one gossip envelope makes responsible for its value batch: the
/// direct recipient plus everyone on the forwarding list it carries.
pub open spec fn spec_gossip_coverage(m: MsgView) -> Set<Seq<char>> {
    match m.body {
        BodyView::Gossip { nodes, .. } => nodes.to_set().insert(m.dest),
        _ => Set::<Seq<char>>::empty(),
    }
}

/// The peers a batch of outbound envelopes covers, all together.
pub open spec fn spec_coverage(out: Seq<MsgView>) -> Set<Seq<char>>
    decreases out.len(),
{
    if out.len() == 0 {
        Set::<Seq<char>>::empty()
    } else {
        spec_gossip_coverage(out[0]).union(spec_coverage(out.skip(1)))
    }
}

proof fn lemma_to_set_head(s: Seq<Seq<char>>)
    requires
        s.len() > 0,
    ensures
        s.to_set() == s.skip(1).to_set().insert(s[0]),
{
    assert forall|x: Seq<char>| s.to_set().contains(x) implies s.skip(1).to_set().insert(
        s[0],
    ).contains(x) by {
        let i = choose|i: int| 0 <= i < s.len() && s[i] == x;
        if i > 0 {
            assert(s.skip(1)[i - 1] == x);
        }
    }
    assert forall|x: Seq<char>| s.skip(1).to_set().insert(s[0]).contains(x) implies s.to_set()
        .contains(x) by {
        if x == s[0] {
            assert(s.contains(x));
        } else {
            let i = choose|i: int| 0 <= i < s.skip(1).len() && s.skip(1)[i] == x;
            assert(s[i + 1] == x);
        }
    }
    assert(s.to_set() =~= s.skip(1).to_set().insert(s[0]));
}

proof fn lemma_to_set_concat(a: Seq<Seq<char>>, b: Seq<Seq<char>>)
    ensures
        (a + b).to_set() == a.to_set().union(b.to_set()),
{
    assert forall|x: Seq<char>| (a + b).to_set().contains(x) implies a.to_set().union(
        b.to_set(),
    ).contains(x) by {
        let i = choose|i: int| 0 <= i < (a + b).len() && (a + b)[i] == x;
        if i < a.len() {
            assert(a[i] == x);
        } else {
            assert(b[i - a.len()] == x);
        }
    }
    assert forall|x: Seq<char>| a.to_set().union(b.to_set()).contains(x) implies (a + b).to_set()
        .contains(x) by {
        if a.to_set().contains(x) {
            let i = choose|i: int| 0 <= i < a.len() && a[i] == x;
            assert((a + b)[i] == x);
        } else {
            let i = choose|i: int| 0 <= i < b.len() && b[i] == x;
            assert((a + b)[a.len() + i] == x);
        }
    }
    assert((a + b).to_set() =~= a.to_set().union(b.to_set()));
}

/// Fan-out coverage: the gossips a fan-out emits cover the whole group and
/// nothing but the group — every peer of the group is either a direct
/// recipient or on the forwarding list handed to one, so recursive
/// re-splitting reaches every peer exactly once per batch. This is the
/// combinatorial heart of eventual convergence: no peer is ever left out of
/// the dissemination tree.
pub proof fn lemma_fan_out_covers_group(node: NodeView, group: Seq<Seq<char>>, values: Seq<i32>)
    ensures
        spec_coverage(spec_fan_out(node, group, values).1) == group.to_set(),
{
    let fh = spec_first_half(group);
    let sh = spec_second_half(group);
    let out = spec_fan_out(node, group, values).1;
    assert(fh + sh =~= group);
    lemma_to_set_concat(fh, sh);
    if fh.len() == 0 && sh.len() == 0 {
        assert(out =~= Seq::<MsgView>::empty());
        assert forall|x: Seq<char>| !(group.to_set().contains(x)) by {
            if group.contains(x) {
                let i = choose|i: int| 0 <= i < group.len() && group[i] == x;
            }
        }
        assert(spec_coverage(out) =~= group.to_set());
    } else if fh.len() == 0 {
        let g2 = spec_gossip_msg(node.id, node.message_id + 1, sh, values);
        assert(out =~= seq![g2]);
        lemma_to_set_head(sh);
        assert(spec_coverage(out.skip(1)) =~= Set::<Seq<char>>::empty());
        assert(fh.to_set() =~= Set::<Seq<char>>::empty());
        assert(spec_coverage(out) =~= group.to_set());
    } else if sh.len() == 0 {
        let g1 = spec_gossip_msg(node.id, node.message_id + 1, fh, values);
        assert(out =~= seq![g1]);
        lemma_to_set_head(fh);
        assert(spec_coverage(out.skip(1)) =~= Set::<Seq<char>>::empty());
        assert(sh.to_set() =~= Set::<Seq<char>>::empty());
        assert(spec_coverage(out) =~= group.to_set());
    } else {
        let g1 = spec_gossip_msg(node.id, node.message_id + 1, fh, values);
        let g2 = spec_gossip_msg(node.id, node.message_id + 2, sh, values);
        assert(out =~= seq![g1, g2]);
        lemma_to_set_head(fh);
        lemma_to_set_head(sh);
        assert(spec_gossip_coverage(g1) == fh.to_set());
        assert(spec_gossip_coverage(g2) == sh.to_set());
        assert(out.skip(1) =~= seq![g2]);
        assert(seq![g2].skip(1) =~= Seq::<MsgView>::empty());
        assert(spec_coverage(Seq::<MsgView>::empty()) == Set::<Seq<char>>::empty());
        assert(spec_coverage(seq![g2]) == spec_gossip_coverage(g2).union(
            spec_coverage(seq![g2].skip(1)),
        ));
        assert(spec_coverage(out) == spec_gossip_coverage(g1).union(spec_coverage(out.skip(1))));
        assert(spec_coverage(out) =~= group.to_set());
    }
}

/// A newly observed broadcast value is handed onward so that every single
/// peer of the node is covered by the emitted gossips: each peer is either a
/// direct recipient or on a forwarding list, never left out.
pub proof fn lemma_broadcast_covers_peers(node: NodeView, m: MsgView, msg_id: int, message: i32)
    requires
        m.body == (BodyView::Broadcast { msg_id, message }),
        !node.store.contains(message),
    ensures
        spec_coverage(spec_step(node, m).1) == node.peers.to_set(),
{
    let n1 = NodeView {
        store: spec_record(node.store, message),
        message_id: node.message_id + 1,
        ..node
    };
    let ack = MsgView {
        src: node.id,
        dest: m.src,
        body: BodyView::BroadcastOk { msg_id: node.message_id + 1, in_reply_to: msg_id },
    };
    let gossips = spec_fan_out(n1, node.peers, seq![message]).1;
    lemma_fan_out_covers_group(n1, node.peers, seq![message]);
    assert(spec_step(node, m).1 == seq![ack] + gossips);
    assert((seq![ack] + gossips).skip(1) =~= gossips);
    assert(spec_coverage(seq![ack] + gossips) == spec_gossip_coverage(ack).union(
        spec_coverage(gossips),
    ));
    assert(spec_coverage(spec_step(node, m).1) =~= node.peers.to_set());
}

/// A received gossip is forwarded so that exactly the forwarding list it
/// carried is covered — never the node's own full peer list, which keeps the
/// tree from folding back toward its origin.
pub proof fn lemma_gossip_covers_forward_list(
    node: NodeView,
    m: MsgView,
    msg_id: int,
    messages: Seq<i32>,
    nodes: Seq<Seq<char>>,
)
    requires
        m.body == (BodyView::Gossip { msg_id, messages, nodes }),
    ensures
        spec_coverage(spec_step(node, m).1) == nodes.to_set(),
{
    let n1 = NodeView {
        store: spec_record_all(node.store, messages),
        message_id: node.message_id + 1,
        ..node
    };
    let ack = MsgView {
        src: node.id,
        dest: m.src,
        body: BodyView::GossipOk { msg_id: node.message_id + 1, in_reply_to: msg_id },
    };
    let gossips = spec_fan_out(n1, nodes, messages).1;
    lemma_fan_out_covers_group(n1, nodes, messages);
    assert(spec_step(node, m).1 == seq![ack] + gossips);
    assert((seq![ack] + gossips).skip(1) =~= gossips);
    assert(spec_coverage(seq![ack] + gossips) == spec_gossip_coverage(ack).union(
        spec_coverage(gossips),
    ));
    assert(spec_coverage(spec_step(node, m).1) =~= nodes.to_set());
}

/// The anti-entropy tick re-covers every peer with the full known set.
pub proof fn lemma_tick_covers_peers(node: NodeView, m: MsgView)
    requires
        m.body == BodyView::Tick,
    ensures
        spec_coverage(spec_step(node, m).1) == node.peers.to_set(),
{
    lemma_fan_out_covers_group(node, node.peers, node.store);
}

/// The nodes a fully delivered fan-out hands the value to: the head of each
/// half receives it directly and then, by re-applying the same split to the
/// tail it was handed (exactly what the dispatch step does on a gossip),
/// hands it to everyone on that tail in turn.
pub open spec fn spec_deliveries(group: Seq<Seq<char>>) -> Set<Seq<char>>
    decreases group.len(),
{
    if group.len() == 0 {
        Set::<Seq<char>>::empty()
    } else {
        let fh = spec_first_half(group);
        let sh = spec_second_half(group);
        let da = if fh.len() == 0 {
            Set::<Seq<char>>::empty()
        } else {
            spec_deliveries(fh.skip(1)).insert(fh[0])
        };
        let db = if sh.len() == 0 {
            Set::<Seq<char>>::empty()
        } else {
            spec_deliveries(sh.skip(1)).insert(sh[0])
        };
        da.union(db)
    }
}

/// Tree totality, the heart of eventual convergence: when every gossip of
/// the fan-out tree is delivered and handled — directly or after retries —
/// the value reaches every peer of the group, nobody more, nobody less.
/// What remains beyond this is liveness (that the transport delivers each
/// gossip after finitely many retries), which is an assumption about the
/// transport, not about this core.
pub proof fn lemma_fan_out_reaches_every_peer(group: Seq<Seq<char>>)
    ensures
        spec_deliveries(group) == group.to_set(),
    decreases group.len(),
{
    if group.len() == 0 {
        assert forall|x: Seq<char>| !(group.to_set().contains(x)) by {
            if group.contains(x) {
                let i = choose|i: int| 0 <= i < group.len() && group[i] == x;
            }
        }
        assert(spec_deliveries(group) =~= group.to_set());
    } else {
        let fh = spec_first_half(group);
        let sh = spec_second_half(group);
        assert(fh + sh =~= group);
        lemma_to_set_concat(fh, sh);
        if fh.len() == 0 {
            assert forall|x: Seq<char>| !(fh.to_set().contains(x)) by {
                if fh.contains(x) {
                    let i = choose|i: int| 0 <= i < fh.len() && fh[i] == x;
                }
            }
        } else {
            lemma_fan_out_reaches_every_peer(fh.skip(1));
            lemma_to_set_head(fh);
        }
        lemma_fan_out_reaches_every_peer(sh.skip(1));
        lemma_to_set_head(sh);
        assert(spec_deliveries(group) =~= group.to_set());
    }
}

/// Toward convergence: every value delivered in a gossip or broadcast is in
/// the store right after the envelope is handled — the step function never
/// drops a delivered value.
pub proof fn lemma_delivered_values_recorded(node: NodeView, m: MsgView)
    ensures
        spec_values_of(m).subset_of(spec_step(node, m).0.store.to_set()),
{
    let r = spec_step(node, m).0;
    match m.body {
        BodyView::Broadcast { msg_id, message } => {
            crate::store::lemma_record_to_set(node.store, message);
            assert(r.store == spec_record(node.store, message));
        },
        BodyView::Gossip { msg_id, messages, nodes } => {
            crate::store::lemma_record_all_to_set(node.store, messages);
            assert(r.store == spec_record_all(node.store, messages));
        },
        _ => {},
    }
}

} // verus!

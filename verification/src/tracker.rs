//! The acknowledgment tracker.
//!
//! One outstanding gossip awaits exactly one acknowledgment: a `GossipOk`
//! from the awaited peer whose `in_reply_to` equals the awaited id. While
//! the dispatch loop waits, every other inbound envelope is deferred, in
//! arrival order, to be replayed into the loop once the wait resolves. A
//! wait that times out is retried: the identical payload is re-sent under a
//! freshly issued id and the old id's slot is abandoned.

use vstd::prelude::*;
use crate::envelope::{clone_ids, ids_view, lemma_msgs_view_push, msgs_view, Body, BodyView, Message, MsgView};
use crate::node::{Node, NodeView};

verus! {

/// One outstanding gossip awaiting acknowledgment from exactly one peer,
/// together with the envelopes deferred while waiting for it.
pub struct PendingAck {
    /// The peer whose acknowledgment is awaited.
    pub peer: String,
    /// The message id the acknowledgment must answer.
    pub id: usize,
    /// The values the gossip carried, kept for a retry.
    pub messages: Vec<i32>,
    /// The forwarding list the gossip carried, kept for a retry.
    pub nodes: Vec<String>,
    /// Envelopes that arrived during the wait without resolving it.
    pub deferred: Vec<Message<Body>>,
}

/// The mathematical state of one wait.
#[verifier::ext_equal]
pub struct PendingAckView {
    pub peer: Seq<char>,
    pub id: int,
    pub messages: Seq<i32>,
    pub nodes: Seq<Seq<char>>,
    pub deferred: Seq<MsgView>,
}

impl View for PendingAck {
    type V = PendingAckView;

    open spec fn view(&self) -> PendingAckView {
        PendingAckView {
            peer: self.peer@,
            id: self.id as int,
            messages: self.messages@,
            nodes: ids_view(self.nodes@),
            deferred: msgs_view(self.deferred@),
        }
    }
}

/// Whether envelope `m` resolves the wait `w`: it must come from the awaited
/// peer and be a gossip acknowledgment answering the awaited id. Nothing
/// else resolves it — not an acknowledgment for another id, not one from
/// another peer, not any other traffic.
pub open spec fn spec_resolves(w: PendingAckView, m: MsgView) -> bool {
    &&& m.src == w.peer
    &&& match m.body {
        BodyView::GossipOk { in_reply_to, .. } => in_reply_to == w.id,
        _ => false,
    }
}

/// Offering one envelope to a wait: a resolving envelope is consumed and
/// the wait is over; anything else is appended to the deferred buffer and
/// the wait goes on.
pub open spec fn spec_offer(w: PendingAckView, m: MsgView) -> (PendingAckView, bool) {
    if spec_resolves(w, m) {
        (w, true)
    } else {
        (PendingAckView { deferred: w.deferred.push(m), ..w }, false)
    }
}

impl PendingAck {
    /// Registers the wait for one just-built gossip envelope: the envelope's
    /// destination must acknowledge the envelope's id. Anything that is not
    /// a gossip needs no acknowledgment and registers nothing.
    pub fn for_gossip(m: &Message<Body>) -> (r: Option<PendingAck>)
        ensures
            match r {
                Option::None => forall|mid: int, vs: Seq<i32>, ns: Seq<Seq<char>>|
                    m@.body != (BodyView::Gossip { msg_id: mid, messages: vs, nodes: ns }),
                Option::Some(w) => {
                    &&& m@.body == (BodyView::Gossip {
                        msg_id: w@.id,
                        messages: w@.messages,
                        nodes: w@.nodes,
                    })
                    &&& w@.peer == m@.dest
                    &&& w@.deferred == Seq::<MsgView>::empty()
                },
            },
    {
        match &m.body {
            Body::Gossip { msg_id, messages, nodes } => {
                let w = PendingAck {
                    peer: m.dest.clone(),
                    id: *msg_id,
                    messages: messages.clone(),
                    nodes: clone_ids(nodes),
                    deferred: Vec::new(),
                };
                proof {
                    assert(msgs_view(w.deferred@) =~= Seq::<MsgView>::empty());
                }
                Some(w)
            },
            _ => None,
        }
    }

    /// Whether `m` is the acknowledgment this wait is for.
    pub fn matches_ack(&self, m: &Message<Body>) -> (r: bool)
        ensures
            r == spec_resolves(self@, m@),
    {
        match &m.body {
            Body::GossipOk { in_reply_to, .. } => *in_reply_to == self.id && m.src == self.peer,
            _ => false,
        }
    }

    /// Feeds one inbound envelope to the wait. Returns whether it resolved;
    /// a non-resolving envelope is deferred, never dropped.
    pub fn offer(&mut self, m: Message<Body>) -> (resolved: bool)
        ensures
            resolved == spec_offer(old(self)@, m@).1,
            final(self)@ == spec_offer(old(self)@, m@).0,
    {
        if self.matches_ack(&m) {
            true
        } else {
            proof {
                lemma_msgs_view_push(self.deferred@, m);
            }
            self.deferred.push(m);
            false
        }
    }

    /// Hands back everything deferred during the wait, in arrival order, for
    /// replay at the head of the dispatch loop's queue.
    pub fn into_deferred(self) -> (r: Vec<Message<Body>>)
        ensures
            msgs_view(r@) == self@.deferred,
    {
        self.deferred
    }
}

/// Re-sending a timed-out gossip: the identical payload to the same peer
/// under the node's next fresh id; the wait is moved onto the new id and the
/// old id's slot is abandoned.
pub open spec fn spec_retry(node: NodeView, w: PendingAckView) -> (NodeView, PendingAckView, MsgView) {
    (
        NodeView { message_id: node.message_id + 1, ..node },
        PendingAckView { id: node.message_id + 1, ..w },
        MsgView {
            src: node.id,
            dest: w.peer,
            body: BodyView::Gossip {
                msg_id: node.message_id + 1,
                messages: w.messages,
                nodes: w.nodes,
            },
        },
    )
}

impl Node {
    /// Builds the retry envelope for a wait whose acknowledgment never came:
    /// same values, same forwarding list, same peer, fresh id. The wait now
    /// awaits the new id; the old id is abandoned.
    pub fn retry(&mut self, pending: &mut PendingAck) -> (m: Message<Body>)
        requires
            old(self).message_id < usize::MAX,
        ensures
            final(self).init == old(self).init,
            final(self).store == old(self).store,
            final(self)@ == spec_retry(old(self)@, old(pending)@).0,
            final(pending)@ == spec_retry(old(self)@, old(pending)@).1,
            m@ == spec_retry(old(self)@, old(pending)@).2,
    {
        let id = self.next_message_id();
        pending.id = id;
        let m = Message {
            src: self.init.id.clone(),
            dest: pending.peer.clone(),
            body: Body::Gossip {
                msg_id: id,
                messages: pending.messages.clone(),
                nodes: clone_ids(&pending.nodes),
            },
        };
        proof {
            assert(self@ =~= spec_retry(old(self)@, old(pending)@).0);
            assert(pending@ =~= spec_retry(old(self)@, old(pending)@).1);
            assert(m@ =~= spec_retry(old(self)@, old(pending)@).2);
        }
        m
    }
}

/// A gossip acknowledgment resolves a wait exactly when it comes from the
/// awaited peer and answers the awaited id; an acknowledgment with a
/// mismatched id or sender — like every other envelope — is deferred, not
/// consumed, and the wait's target never changes.
pub proof fn lemma_ack_correlation(w: PendingAckView, m: MsgView)
    ensures
        spec_offer(w, m).1 <==> match m.body {
            BodyView::GossipOk { in_reply_to, .. } => m.src == w.peer && in_reply_to == w.id,
            _ => false,
        },
        !spec_offer(w, m).1 ==> spec_offer(w, m).0 == (PendingAckView {
            deferred: w.deferred.push(m),
            ..w
        }),
        spec_offer(w, m).0.peer == w.peer,
        spec_offer(w, m).0.id == w.id,
{
}

/// Deferred-order preservation: three envelopes arriving during a wait,
/// none resolving it, end up in the deferred buffer in exactly their arrival
/// order, behind whatever was deferred before them.
pub proof fn lemma_deferred_order(w: PendingAckView, e1: MsgView, e2: MsgView, e3: MsgView)
    requires
        !spec_resolves(w, e1),
        !spec_resolves(w, e2),
        !spec_resolves(w, e3),
    ensures
        ({
            let w1 = spec_offer(w, e1).0;
            let w2 = spec_offer(w1, e2).0;
            let w3 = spec_offer(w2, e3).0;
            w3.deferred == w.deferred.push(e1).push(e2).push(e3)
        }),
{
}

/// Timeout-retry equivalence: the retried gossip carries the same values
/// and the same forwarding list as the timed-out one, to the same peer,
/// under a fresh id; the wait is moved onto that new id, so the original
/// id's slot is abandoned.
pub proof fn lemma_timeout_retry(node: NodeView, w: PendingAckView)
    requires
        w.id <= node.message_id,
    ensures
        ({
            let (n2, w2, m) = spec_retry(node, w);
            &&& m.dest == w.peer
            &&& m.body == (BodyView::Gossip { msg_id: w2.id, messages: w.messages, nodes: w.nodes })
            &&& w2.id != w.id
            &&& w2.peer == w.peer
            &&& w2.messages == w.messages
            &&& w2.nodes == w.nodes
            &&& n2.message_id > node.message_id
        }),
{
}

} // verus!

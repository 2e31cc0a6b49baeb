//! The startup handshake.
//!
//! Before the dispatch loop runs, the very first envelope must be an `Init`
//! carrying this node's identity and the full peer list. It is answered with
//! an `InitOk`; anything else is a protocol error and the node refuses to
//! start.

use vstd::prelude::*;
use crate::envelope::{clone_ids, ids_view, Body, BodyView, Message, MsgView};
use crate::node::NodeInit;

verus! {

/// Why the handshake failed.
#[derive(Debug, Clone, PartialEq, Eq, Structural)]
pub enum InitError {
    /// The first envelope was not an `Init`.
    NotInit,
}

/// What the handshake yields for an `Init` envelope: the identity it carries
/// and the `InitOk` reply owed to the sender; nothing for anything else.
pub open spec fn spec_take_init(m: MsgView) -> Option<(Seq<char>, Seq<Seq<char>>, MsgView)> {
    match m.body {
        BodyView::Init { msg_id, node_id, node_ids } => Option::Some(
            (
                node_id,
                node_ids,
                MsgView { src: node_id, dest: m.src, body: BodyView::InitOk { in_reply_to: msg_id } },
            ),
        ),
        _ => Option::None,
    }
}

/// Takes the handshake envelope: an `Init` yields the node's identity plus
/// the `InitOk` reply to send back; any other envelope is rejected, since a
/// node must not start without an identity.
pub fn take_init(msg: &Message<Body>) -> (r: Result<(NodeInit, Message<Body>), InitError>)
    ensures
        match r {
            Result::Ok((ni, reply)) => spec_take_init(msg@) == Option::Some(
                (ni.id@, ids_view(ni.node_ids@), reply@),
            ),
            Result::Err(e) => {
                &&& spec_take_init(msg@) == Option::None::<(Seq<char>, Seq<Seq<char>>, MsgView)>
                &&& e == InitError::NotInit
            },
        },
{
    match &msg.body {
        Body::Init { msg_id, node_id, node_ids } => {
            let ni = NodeInit { id: node_id.clone(), node_ids: clone_ids(node_ids) };
            let reply = Message {
                src: node_id.clone(),
                dest: msg.src.clone(),
                body: Body::InitOk { in_reply_to: *msg_id },
            };
            proof {
                assert(reply@ =~= MsgView {
                    src: node_id@,
                    dest: msg.src@,
                    body: BodyView::InitOk { in_reply_to: *msg_id as int },
                });
            }
            Ok((ni, reply))
        },
        _ => Err(InitError::NotInit),
    }
}

} // verus!

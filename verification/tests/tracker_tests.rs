use flyio::envelope::{Body, Message};
use flyio::node::{Node, NodeInit};
use flyio::tracker::PendingAck;

fn ids(names: &[&str]) -> Vec<String> {
    names.iter().map(|n| n.to_string()).collect()
}

fn envelope(src: &str, dest: &str, body: Body) -> Message<Body> {
    Message { src: src.to_string(), dest: dest.to_string(), body }
}

fn gossip_to_n2() -> Message<Body> {
    envelope("n1", "n2", Body::Gossip { msg_id: 7, messages: vec![10, 20], nodes: ids(&["n3"]) })
}

#[test]
fn for_gossip_registers_the_wait() {
    let w = PendingAck::for_gossip(&gossip_to_n2()).unwrap();
    assert_eq!(w.peer, "n2");
    assert_eq!(w.id, 7);
    assert_eq!(w.messages, vec![10, 20]);
    assert_eq!(w.nodes, ids(&["n3"]));
    assert!(w.deferred.is_empty());
}

#[test]
fn for_gossip_on_other_bodies_is_none() {
    let m = envelope("c1", "n1", Body::Broadcast { msg_id: 1, message: 5 });
    assert!(PendingAck::for_gossip(&m).is_none());
}

#[test]
fn matching_ack_resolves_the_wait() {
    let mut w = PendingAck::for_gossip(&gossip_to_n2()).unwrap();
    let ack = envelope("n2", "n1", Body::GossipOk { msg_id: 3, in_reply_to: 7 });
    assert!(w.offer(ack));
    assert!(w.deferred.is_empty());
}

#[test]
fn ack_with_wrong_id_is_deferred() {
    let mut w = PendingAck::for_gossip(&gossip_to_n2()).unwrap();
    let wrong = envelope("n2", "n1", Body::GossipOk { msg_id: 3, in_reply_to: 8 });
    assert!(!w.offer(wrong.clone()));
    assert_eq!(w.into_deferred(), vec![wrong]);
}

#[test]
fn ack_from_wrong_peer_is_deferred() {
    let mut w = PendingAck::for_gossip(&gossip_to_n2()).unwrap();
    let wrong = envelope("n3", "n1", Body::GossipOk { msg_id: 3, in_reply_to: 7 });
    assert!(!w.offer(wrong.clone()));
    assert_eq!(w.into_deferred(), vec![wrong]);
}

#[test]
fn deferred_envelopes_keep_arrival_order() {
    let mut w = PendingAck::for_gossip(&gossip_to_n2()).unwrap();
    let e1 = envelope("c1", "n1", Body::Broadcast { msg_id: 1, message: 1 });
    let e2 = envelope("n3", "n1", Body::GossipOk { msg_id: 2, in_reply_to: 9 });
    let e3 = envelope("c2", "n1", Body::Read { msg_id: 3 });
    assert!(!w.offer(e1.clone()));
    assert!(!w.offer(e2.clone()));
    assert!(!w.offer(e3.clone()));
    let ack = envelope("n2", "n1", Body::GossipOk { msg_id: 4, in_reply_to: 7 });
    assert!(w.offer(ack));
    assert_eq!(w.into_deferred(), vec![e1, e2, e3]);
}

#[test]
fn retry_resends_same_payload_under_fresh_id() {
    let mut n = Node::new(NodeInit { id: "n1".to_string(), node_ids: ids(&["n2", "n3"]) });
    // The original send took ids 1 (say, an ack) and 7 is simulated below.
    let mut w = PendingAck::for_gossip(&gossip_to_n2()).unwrap();
    n.next_message_id(); // 1
    let m = n.retry(&mut w);

    assert_eq!(m.src, "n1");
    assert_eq!(m.dest, "n2");
    assert_eq!(m.body, Body::Gossip { msg_id: 2, messages: vec![10, 20], nodes: ids(&["n3"]) });
    // The wait has moved onto the fresh id; the old slot is abandoned.
    assert_eq!(w.id, 2);
    let stale = envelope("n2", "n1", Body::GossipOk { msg_id: 5, in_reply_to: 7 });
    assert!(!w.offer(stale));
    let fresh = envelope("n2", "n1", Body::GossipOk { msg_id: 6, in_reply_to: 2 });
    assert!(w.offer(fresh));
}

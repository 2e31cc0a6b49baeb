use flyio::envelope::{Body, Message};
use flyio::node::{Node, NodeInit};

fn ids(names: &[&str]) -> Vec<String> {
    names.iter().map(|n| n.to_string()).collect()
}

fn node(id: &str, peers: &[&str]) -> Node {
    Node::new(NodeInit { id: id.to_string(), node_ids: ids(peers) })
}

fn envelope(src: &str, dest: &str, body: Body) -> Message<Body> {
    Message { src: src.to_string(), dest: dest.to_string(), body }
}

#[test]
fn broadcast_acks_and_fans_out() {
    let mut n = node("n1", &["n2", "n3", "n4", "n5"]);
    let out = n.handle(&envelope("c1", "n1", Body::Broadcast { msg_id: 1, message: 42 }));

    assert_eq!(out.len(), 3);
    assert_eq!(out[0].src, "n1");
    assert_eq!(out[0].dest, "c1");
    assert_eq!(out[0].body, Body::BroadcastOk { msg_id: 1, in_reply_to: 1 });
    assert_eq!(out[1].dest, "n2");
    assert_eq!(
        out[1].body,
        Body::Gossip { msg_id: 2, messages: vec![42], nodes: ids(&["n3"]) }
    );
    assert_eq!(out[2].dest, "n4");
    assert_eq!(
        out[2].body,
        Body::Gossip { msg_id: 3, messages: vec![42], nodes: ids(&["n5"]) }
    );
}

#[test]
fn fanout_recursion_reaches_everyone() {
    // Each recipient re-splits exactly the forwarding list it was handed, so
    // the tree covers [n2, n3, n4, n5] without sending back toward the
    // origin: n1 -> n2 (with [n3]) and n1 -> n4 (with [n5]); n2 -> n3 (with
    // []); n3 forwards to nobody.
    let mut n1 = node("n1", &["n2", "n3", "n4", "n5"]);
    let out1 = n1.handle(&envelope("c1", "n1", Body::Broadcast { msg_id: 1, message: 42 }));
    let to_n2 = out1.iter().find(|m| m.dest == "n2").unwrap();
    assert_eq!(to_n2.body, Body::Gossip { msg_id: 2, messages: vec![42], nodes: ids(&["n3"]) });

    let mut n2 = node("n2", &["n1", "n3", "n4", "n5"]);
    let out2 = n2.handle(&envelope("n1", "n2", to_n2.body.clone()));
    let to_n3 = out2.iter().find(|m| m.dest == "n3").unwrap();
    assert_eq!(
        to_n3.body,
        Body::Gossip { msg_id: 2, messages: vec![42], nodes: ids(&[]) }
    );

    let mut n3 = node("n3", &["n1", "n2", "n4", "n5"]);
    let out3 = n3.handle(&envelope("n2", "n3", to_n3.body.clone()));
    assert_eq!(out3.len(), 1);
    assert!(matches!(out3[0].body, Body::GossipOk { .. }));
    assert!(n2.store.contains(42));
    assert!(n3.store.contains(42));
}

#[test]
fn gossip_recipient_acks_and_forwards_to_tail() {
    let mut n2 = node("n2", &["n1", "n3", "n4", "n5"]);
    let out = n2.handle(&envelope(
        "n1",
        "n2",
        Body::Gossip { msg_id: 9, messages: vec![42], nodes: ids(&["n3"]) },
    ));

    assert_eq!(out.len(), 2);
    assert_eq!(out[0].dest, "n1");
    assert_eq!(out[0].body, Body::GossipOk { msg_id: 1, in_reply_to: 9 });
    assert_eq!(out[1].dest, "n3");
    assert_eq!(out[1].body, Body::Gossip { msg_id: 2, messages: vec![42], nodes: ids(&[]) });
    assert!(n2.store.contains(42));
}

#[test]
fn gossip_with_empty_forward_list_stops() {
    let mut n3 = node("n3", &["n1", "n2"]);
    let out = n3.handle(&envelope(
        "n2",
        "n3",
        Body::Gossip { msg_id: 4, messages: vec![42], nodes: ids(&[]) },
    ));
    assert_eq!(out.len(), 1);
    assert_eq!(out[0].body, Body::GossipOk { msg_id: 1, in_reply_to: 4 });
}

#[test]
fn duplicate_broadcast_is_acked_but_not_regossiped() {
    let mut n = node("n1", &["n2", "n3"]);
    let first = n.handle(&envelope("c1", "n1", Body::Broadcast { msg_id: 1, message: 7 }));
    assert!(first.len() > 1);
    let second = n.handle(&envelope("c1", "n1", Body::Broadcast { msg_id: 2, message: 7 }));
    assert_eq!(second.len(), 1);
    assert!(matches!(second[0].body, Body::BroadcastOk { .. }));
}

#[test]
fn read_returns_accumulated_set() {
    // Broadcast {10, 20} with a duplicate, then read: the answer is the set
    // {10, 20}, order not specified.
    let mut n = node("n1", &[]);
    n.handle(&envelope("c1", "n1", Body::Broadcast { msg_id: 1, message: 20 }));
    n.handle(&envelope("c1", "n1", Body::Broadcast { msg_id: 2, message: 10 }));
    n.handle(&envelope("c1", "n1", Body::Broadcast { msg_id: 3, message: 10 }));
    let out = n.handle(&envelope("c9", "n1", Body::Read { msg_id: 5 }));

    assert_eq!(out.len(), 1);
    assert_eq!(out[0].dest, "c9");
    match &out[0].body {
        Body::ReadOk { in_reply_to, messages, .. } => {
            assert_eq!(*in_reply_to, 5);
            let mut sorted = messages.clone();
            sorted.sort();
            assert_eq!(sorted, vec![10, 20]);
        }
        other => panic!("expected a read reply, got {:?}", other),
    }
}

#[test]
fn topology_is_acked_and_ignored() {
    let mut n = node("n1", &["n2", "n3"]);
    let out = n.handle(&envelope("c1", "n1", Body::Topology { msg_id: 8 }));
    assert_eq!(out.len(), 1);
    assert_eq!(out[0].body, Body::TopologyOk { msg_id: 1, in_reply_to: 8 });
    // The fan-out list stays the configured one.
    assert_eq!(n.init.node_ids, ids(&["n2", "n3"]));
}

#[test]
fn stray_ack_is_discarded() {
    let mut n = node("n1", &["n2"]);
    let out = n.handle(&envelope("n2", "n1", Body::GossipOk { msg_id: 3, in_reply_to: 99 }));
    assert!(out.is_empty());
    let out = n.handle(&envelope("c1", "n1", Body::BroadcastOk { msg_id: 3, in_reply_to: 1 }));
    assert!(out.is_empty());
}

#[test]
fn tick_regossips_whole_known_set() {
    let mut n = node("n1", &["n2", "n3"]);
    n.handle(&envelope("c1", "n1", Body::Broadcast { msg_id: 1, message: 10 }));
    n.handle(&envelope("c1", "n1", Body::Broadcast { msg_id: 2, message: 20 }));
    let out = n.handle(&envelope("n1", "n1", Body::Tick));

    assert_eq!(out.len(), 2);
    for m in &out {
        match &m.body {
            Body::Gossip { messages, .. } => {
                let mut sorted = messages.clone();
                sorted.sort();
                assert_eq!(sorted, vec![10, 20]);
            }
            other => panic!("expected gossip, got {:?}", other),
        }
    }
    assert_eq!(out[0].dest, "n2");
    assert_eq!(out[1].dest, "n3");
}

#[test]
fn every_node_converges_on_a_broadcast_value() {
    // Five nodes; a broadcast lands at n1; every gossip is delivered to its
    // destination (acknowledgments are dropped, which only suppresses
    // retries). Afterwards every node's snapshot holds the value.
    let names = ["n1", "n2", "n3", "n4", "n5"];
    let mut nodes: Vec<Node> = names
        .iter()
        .map(|me| {
            let peers: Vec<&str> =
                names.iter().copied().filter(|other| other != me).collect();
            node(me, &peers)
        })
        .collect();

    let mut in_flight =
        vec![envelope("c1", "n1", Body::Broadcast { msg_id: 1, message: 77 })];
    while let Some(m) = in_flight.pop() {
        let Some(i) = names.iter().position(|n| *n == m.dest) else {
            continue; // a client destination: replies need no handling
        };
        for sent in nodes[i].handle(&m) {
            if matches!(sent.body, Body::Gossip { .. }) {
                in_flight.push(sent);
            }
        }
    }

    for n in &nodes {
        assert!(n.store.contains(77), "a node missed the value");
    }
}

#[test]
fn message_ids_increase_and_are_never_reused() {
    let mut n = node("n1", &[]);
    let a = n.next_message_id();
    let b = n.next_message_id();
    let c = n.next_message_id();
    assert_eq!((a, b, c), (1, 2, 3));
}

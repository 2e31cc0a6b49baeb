use flyio::envelope::{Body, Message};
use flyio::init::{take_init, InitError};

fn ids(names: &[&str]) -> Vec<String> {
    names.iter().map(|n| n.to_string()).collect()
}

#[test]
fn init_yields_identity_and_reply() {
    let msg = Message {
        src: "c0".to_string(),
        dest: "n1".to_string(),
        body: Body::Init {
            msg_id: 1,
            node_id: "n1".to_string(),
            node_ids: ids(&["n2", "n3"]),
        },
    };
    let (ni, reply) = take_init(&msg).unwrap();
    assert_eq!(ni.id, "n1");
    assert_eq!(ni.node_ids, ids(&["n2", "n3"]));
    assert_eq!(reply.src, "n1");
    assert_eq!(reply.dest, "c0");
    assert_eq!(reply.body, Body::InitOk { in_reply_to: 1 });
}

#[test]
fn non_init_is_refused() {
    let msg = Message {
        src: "c0".to_string(),
        dest: "n1".to_string(),
        body: Body::Broadcast { msg_id: 1, message: 3 },
    };
    assert_eq!(take_init(&msg).unwrap_err(), InitError::NotInit);
}

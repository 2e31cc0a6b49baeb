use flyio::fanout::{select, split};

fn ids(names: &[&str]) -> Vec<String> {
    names.iter().map(|n| n.to_string()).collect()
}

#[test]
fn split_four_peers_into_halves() {
    let peers = ids(&["n2", "n3", "n4", "n5"]);
    let (a, b) = split(&peers);
    assert_eq!(a, ids(&["n2", "n3"]));
    assert_eq!(b, ids(&["n4", "n5"]));
}

#[test]
fn split_odd_list_puts_extra_in_second_half() {
    let peers = ids(&["n2", "n3", "n4"]);
    let (a, b) = split(&peers);
    assert_eq!(a, ids(&["n2"]));
    assert_eq!(b, ids(&["n3", "n4"]));
}

#[test]
fn split_empty_and_single() {
    let (a, b) = split(&ids(&[]));
    assert!(a.is_empty());
    assert!(b.is_empty());
    let (a, b) = split(&ids(&["n2"]));
    assert!(a.is_empty());
    assert_eq!(b, ids(&["n2"]));
}

#[test]
fn select_head_and_tail() {
    let (head, tail) = select(&ids(&["n2", "n3"])).unwrap();
    assert_eq!(head, "n2");
    assert_eq!(tail, ids(&["n3"]));
}

#[test]
fn select_single_forwards_to_nobody() {
    let (head, tail) = select(&ids(&["n3"])).unwrap();
    assert_eq!(head, "n3");
    assert!(tail.is_empty());
}

#[test]
fn select_empty_is_none() {
    assert!(select(&ids(&[])).is_none());
}

#[test]
fn split_is_deterministic() {
    let peers = ids(&["n4", "n2", "n9", "n7"]);
    assert_eq!(split(&peers), split(&peers));
}

use flyio::store::DedupStore;

#[test]
fn record_reports_newly_observed() {
    let mut s = DedupStore::new();
    assert!(s.record(5));
    assert!(!s.record(5));
}

#[test]
fn record_twice_keeps_one_occurrence() {
    let mut s = DedupStore::new();
    s.record(7);
    s.record(7);
    let snap = s.snapshot();
    assert_eq!(snap.iter().filter(|v| **v == 7).count(), 1);
    assert_eq!(snap.len(), 1);
}

#[test]
fn snapshot_reflects_all_records() {
    let mut s = DedupStore::new();
    assert!(s.record(1));
    assert!(s.record(2));
    assert!(s.record(3));
    let snap = s.snapshot();
    assert_eq!(snap, vec![1, 2, 3]);
}

#[test]
fn contains_tracks_membership() {
    let mut s = DedupStore::new();
    assert!(!s.contains(9));
    s.record(9);
    assert!(s.contains(9));
    assert!(!s.contains(10));
}

#[test]
fn record_all_dedups_batch() {
    let mut s = DedupStore::new();
    s.record(2);
    s.record_all(&vec![1, 2, 1, 3]);
    let snap = s.snapshot();
    assert_eq!(snap, vec![2, 1, 3]);
}

#[test]
fn len_counts_distinct_values() {
    let mut s = DedupStore::new();
    assert_eq!(s.len(), 0);
    s.record(4);
    s.record(4);
    s.record(5);
    assert_eq!(s.len(), 2);
}

//! The fan-out tree builder.
//!
//! A peer list is split into two positional halves; within each half the
//! first peer is the direct recipient and the remainder travels inside that
//! peer's gossip payload as the peers it must keep forwarding to. Each
//! recipient re-applies the same split to the list it was handed, so the
//! whole cluster forms a binary fan-out tree of logarithmic depth with at
//! most two direct sends per node per batch. The split is purely positional,
//! never randomized, so the same peer list always yields the same tree.

use vstd::prelude::*;
use crate::envelope::ids_view;

verus! {

/// The first half of a positional split: `peers[0 .. len / 2]`.
pub open spec fn spec_first_half(peers: Seq<Seq<char>>) -> Seq<Seq<char>> {
    peers.take(peers.len() as int / 2)
}

/// The second half of a positional split: `peers[len / 2 .. len]`.
pub open spec fn spec_second_half(peers: Seq<Seq<char>>) -> Seq<Seq<char>> {
    peers.skip(peers.len() as int / 2)
}

/// Taking id views commutes with taking a subrange.
pub proof fn lemma_ids_view_subrange(s: Seq<String>, x: int, y: int)
    requires
        0 <= x <= y <= s.len(),
    ensures
        ids_view(s.subrange(x, y)) == ids_view(s).subrange(x, y),
{
    assert(ids_view(s.subrange(x, y)) =~= ids_view(s).subrange(x, y));
}

/// Splits a peer list into two disjoint halves by position; either half may
/// be empty. The two halves concatenated give back the whole list.
pub fn split(peers: &Vec<String>) -> (r: (Vec<String>, Vec<String>))
    ensures
        ids_view(r.0@) == spec_first_half(ids_view(peers@)),
        ids_view(r.1@) == spec_second_half(ids_view(peers@)),
        r.0@ + r.1@ == peers@,
{
    let mid: usize = peers.len() / 2;
    let mut first: Vec<String> = Vec::new();
    let mut second: Vec<String> = Vec::new();
    let mut i: usize = 0;
    while i < mid
        invariant
            0 <= i <= mid <= peers@.len(),
            first@ == peers@.take(i as int),
        decreases mid - i,
    {
        first.push(peers[i].clone());
        assert(first@ =~= peers@.take(i + 1 as int));
        i = i + 1;
    }
    while i < peers.len()
        invariant
            mid == peers@.len() / 2,
            mid <= i <= peers@.len(),
            second@ == peers@.subrange(mid as int, i as int),
        decreases peers@.len() - i,
    {
        second.push(peers[i].clone());
        assert(second@ =~= peers@.subrange(mid as int, i + 1 as int));
        i = i + 1;
    }
    proof {
        lemma_ids_view_subrange(peers@, 0, mid as int);
        lemma_ids_view_subrange(peers@, mid as int, peers@.len() as int);
        assert(peers@.take(mid as int) == peers@.subrange(0, mid as int));
        assert(ids_view(peers@).take(mid as int) == ids_view(peers@).subrange(0, mid as int));
        assert(first@ + second@ =~= peers@);
    }
    (first, second)
}

/// Picks the direct recipient for one group: the group's first peer, with
/// the remainder to hand that peer as its own forwarding list. An empty
/// group yields no recipient, so a list of zero or one peers forwards to
/// nobody beyond its head.
pub fn select(group: &Vec<String>) -> (r: Option<(String, Vec<String>)>)
    ensures
        match r {
            Option::None => group@.len() == 0,
            Option::Some((head, tail)) => {
                &&& group@.len() > 0
                &&& head@ == ids_view(group@)[0]
                &&& ids_view(tail@) == ids_view(group@).skip(1)
            },
        },
{
    if group.len() == 0 {
        return None;
    }
    let head: String = group[0].clone();
    let mut tail: Vec<String> = Vec::new();
    let mut i: usize = 1;
    while i < group.len()
        invariant
            1 <= i <= group@.len(),
            tail@ == group@.subrange(1, i as int),
        decreases group@.len() - i,
    {
        tail.push(group[i].clone());
        assert(tail@ =~= group@.subrange(1, i + 1 as int));
        i = i + 1;
    }
    proof {
        lemma_ids_view_subrange(group@, 1, group@.len() as int);
        assert(ids_view(group@).subrange(1, ids_view(group@).len() as int) == ids_view(
            group@,
        ).skip(1));
    }
    Some((head, tail))
}

/// The two halves of a split partition the peer list: concatenated they are
/// the whole list, and each peer lands in exactly one half.
pub proof fn lemma_split_partitions(peers: Seq<Seq<char>>)
    ensures
        spec_first_half(peers) + spec_second_half(peers) == peers,
        spec_first_half(peers).len() + spec_second_half(peers).len() == peers.len(),
{
    assert(spec_first_half(peers) + spec_second_half(peers) =~= peers);
}

} // verus!

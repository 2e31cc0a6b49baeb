//! The dedup store: the set of all values this node has ever recorded.
//!
//! Insertion is idempotent and the store never shrinks. The store is kept
//! as a duplicate-free vector so that a snapshot is a plain copy; membership
//! order is insertion order, which callers must not rely on.

use vstd::prelude::*;

verus! {

/// The set of values ever observed by this node.
///
/// Invariant: the backing vector holds no duplicates, so every recorded
/// value occurs in a snapshot exactly once.
pub struct DedupStore {
    values: Vec<i32>,
}

/// No value occurs twice.
pub open spec fn spec_no_dup(s: Seq<i32>) -> bool {
    forall|i: int, j: int| 0 <= i < j < s.len() ==> s[i] != s[j]
}

/// Recording a value: a no-op if it is already present, an append otherwise.
pub open spec fn spec_record(store: Seq<i32>, v: i32) -> Seq<i32> {
    if store.contains(v) {
        store
    } else {
        store.push(v)
    }
}

/// Recording a batch of values one by one, in order.
pub open spec fn spec_record_all(store: Seq<i32>, vs: Seq<i32>) -> Seq<i32>
    decreases vs.len(),
{
    if vs.len() == 0 {
        store
    } else {
        spec_record_all(spec_record(store, vs[0]), vs.skip(1))
    }
}

impl DedupStore {
    /// The recorded values, in insertion order.
    pub closed spec fn view(&self) -> Seq<i32> {
        self.values@
    }

    /// The backing vector holds each value at most once.
    pub open spec fn well_formed(&self) -> bool {
        spec_no_dup(self@)
    }

    pub fn new() -> (r: DedupStore)
        ensures
            r@ == Seq::<i32>::empty(),
            r.well_formed(),
    {
        DedupStore { values: Vec::new() }
    }

    /// Whether `v` has been recorded.
    pub fn contains(&self, v: i32) -> (r: bool)
        ensures
            r == self@.contains(v),
    {
        let mut i: usize = 0;
        while i < self.values.len()
            invariant
                0 <= i <= self.values@.len(),
                forall|k: int| 0 <= k < i ==> self.values@[k] != v,
            decreases self.values@.len() - i,
        {
            if self.values[i] == v {
                return true;
            }
            i = i + 1;
        }
        false
    }

    /// Inserts `v`; returns whether it was newly observed (`false` if it was
    /// already present). Insertion never fails and never removes anything.
    pub fn record(&mut self, v: i32) -> (newly: bool)
        requires
            old(self).well_formed(),
        ensures
            final(self).well_formed(),
            newly == !old(self)@.contains(v),
            final(self)@ == spec_record(old(self)@, v),
            final(self)@.contains(v),
    {
        proof {
            lemma_record_grows(old(self)@, v);
        }
        if self.contains(v) {
            false
        } else {
            self.values.push(v);
            true
        }
    }

    /// Records a whole batch of values, one by one, in order. Values already
    /// present are no-ops, so repeated deliveries of the same gossip leave
    /// the store unchanged.
    pub fn record_all(&mut self, vs: &Vec<i32>)
        requires
            old(self).well_formed(),
        ensures
            final(self).well_formed(),
            final(self)@ == spec_record_all(old(self)@, vs@),
    {
        let mut i: usize = 0;
        while i < vs.len()
            invariant
                0 <= i <= vs@.len(),
                self.well_formed(),
                self@ == spec_record_all(old(self)@, vs@.take(i as int)),
            decreases vs@.len() - i,
        {
            self.record(vs[i]);
            proof {
                lemma_record_all_snoc(old(self)@, vs@.take(i as int), vs@[i as int]);
                assert(vs@.take(i as int).push(vs@[i as int]) =~= vs@.take(i + 1 as int));
            }
            i = i + 1;
        }
        proof {
            assert(vs@.take(vs@.len() as int) =~= vs@);
        }
    }

    /// All recorded values, each exactly once, in insertion order.
    pub fn snapshot(&self) -> (r: Vec<i32>)
        ensures
            r@ == self@,
    {
        self.values.clone()
    }

    /// How many distinct values have been recorded.
    pub fn len(&self) -> (r: usize)
        ensures
            r == self@.len(),
    {
        self.values.len()
    }
}

/// Recording a batch and then one more value is the same as recording the
/// batch extended by that value.
pub proof fn lemma_record_all_snoc(store: Seq<i32>, vs: Seq<i32>, v: i32)
    ensures
        spec_record_all(store, vs.push(v)) == spec_record(spec_record_all(store, vs), v),
    decreases vs.len(),
{
    if vs.len() == 0 {
        assert(vs.push(v)[0] == v);
        assert(vs.push(v).skip(1) =~= Seq::<i32>::empty());
        assert(spec_record_all(store, vs.push(v)) == spec_record_all(
            spec_record(store, v),
            Seq::<i32>::empty(),
        ));
        assert(spec_record_all(spec_record(store, v), Seq::<i32>::empty()) == spec_record(
            store,
            v,
        ));
        assert(spec_record_all(store, vs) == store);
    } else {
        assert(vs.push(v)[0] == vs[0]);
        assert(vs.push(v).skip(1) =~= vs.skip(1).push(v));
        assert(spec_record_all(store, vs.push(v)) == spec_record_all(
            spec_record(store, vs[0]),
            vs.skip(1).push(v),
        ));
        lemma_record_all_snoc(spec_record(store, vs[0]), vs.skip(1), v);
        assert(spec_record_all(store, vs) == spec_record_all(
            spec_record(store, vs[0]),
            vs.skip(1),
        ));
    }
}

/// Recording keeps every value that was already present and adds `v`.
pub proof fn lemma_record_grows(store: Seq<i32>, v: i32)
    ensures
        spec_record(store, v).contains(v),
        forall|w: i32| store.contains(w) ==> spec_record(store, v).contains(w),
        store.is_prefix_of(spec_record(store, v)),
{
    if !store.contains(v) {
        assert(spec_record(store, v)[store.len() as int] == v);
        assert forall|w: i32| store.contains(w) implies spec_record(store, v).contains(w) by {
            let i = choose|i: int| 0 <= i < store.len() && store[i] == w;
            assert(spec_record(store, v)[i] == w);
        }
        assert(store.is_prefix_of(store.push(v)));
    }
}

/// Recording keeps the store duplicate-free.
pub proof fn lemma_record_no_dup(store: Seq<i32>, v: i32)
    requires
        spec_no_dup(store),
    ensures
        spec_no_dup(spec_record(store, v)),
{
    if !store.contains(v) {
        let r = store.push(v);
        assert forall|i: int, j: int| 0 <= i < j < r.len() implies r[i] != r[j] by {
            if j < store.len() {
                assert(store[i] != store[j]);
            } else {
                assert(r[j] == v);
                assert(r[i] == store[i]);
            }
        }
    }
}

/// Idempotence: recording the same value twice leaves the store exactly as
/// one record left it; the second record finds the value already present
/// (so it reports "not newly observed"), and a duplicate-free store holds
/// the value at exactly one position afterwards.
pub proof fn lemma_record_idempotent(store: Seq<i32>, v: i32)
    requires
        spec_no_dup(store),
    ensures
        spec_record(store, v).contains(v),
        spec_record(spec_record(store, v), v) == spec_record(store, v),
        spec_no_dup(spec_record(store, v)),
        forall|i: int, j: int|
            (0 <= i < spec_record(store, v).len() && 0 <= j < spec_record(store, v).len()
                && #[trigger] spec_record(store, v)[i] == v && #[trigger] spec_record(store, v)[j]
                == v) ==> i == j,
{
    lemma_record_grows(store, v);
    lemma_record_no_dup(store, v);
}

/// Recording a whole batch extends the store: everything already recorded
/// stays, at its place.
pub proof fn lemma_record_all_grows(store: Seq<i32>, vs: Seq<i32>)
    ensures
        store.is_prefix_of(spec_record_all(store, vs)),
        spec_no_dup(store) ==> spec_no_dup(spec_record_all(store, vs)),
    decreases vs.len(),
{
    if vs.len() == 0 {
        assert(store =~= spec_record_all(store, vs).subrange(0, store.len() as int));
    } else {
        let s1 = spec_record(store, vs[0]);
        lemma_record_grows(store, vs[0]);
        if spec_no_dup(store) {
            lemma_record_no_dup(store, vs[0]);
        }
        lemma_record_all_grows(s1, vs.skip(1));
        let r = spec_record_all(store, vs);
        assert(s1 =~= r.subrange(0, s1.len() as int));
        assert(store =~= r.subrange(0, store.len() as int));
    }
}

/// The set of values after one record: the old set plus the new value.
pub proof fn lemma_record_to_set(store: Seq<i32>, v: i32)
    ensures
        spec_record(store, v).to_set() == store.to_set().insert(v),
{
    let r = spec_record(store, v);
    assert forall|x: i32| #[trigger] r.to_set().contains(x) implies store.to_set().insert(
        v,
    ).contains(x) by {
        let i = choose|i: int| 0 <= i < r.len() && r[i] == x;
        if i < store.len() {
            assert(store[i] == x);
        } else {
            assert(x == v);
        }
    }
    assert forall|x: i32| store.to_set().insert(v).contains(x) implies #[trigger] r.to_set()
        .contains(x) by {
        if x == v {
            lemma_record_grows(store, v);
        } else {
            let i = choose|i: int| 0 <= i < store.len() && store[i] == x;
            assert(r[i] == x);
        }
    }
    assert(r.to_set() =~= store.to_set().insert(v));
}

/// The set of values after recording a batch: the old set united with the
/// batch's values — nothing less, nothing more.
pub proof fn lemma_record_all_to_set(store: Seq<i32>, vs: Seq<i32>)
    ensures
        spec_record_all(store, vs).to_set() == store.to_set().union(vs.to_set()),
    decreases vs.len(),
{
    if vs.len() == 0 {
        assert forall|x: i32| store.to_set().union(vs.to_set()).contains(x) implies store.to_set()
            .contains(x) by {
            if vs.to_set().contains(x) {
                let i = choose|i: int| 0 <= i < vs.len() && vs[i] == x;
            }
        }
        assert(spec_record_all(store, vs).to_set() =~= store.to_set().union(vs.to_set()));
    } else {
        let s1 = spec_record(store, vs[0]);
        lemma_record_to_set(store, vs[0]);
        lemma_record_all_to_set(s1, vs.skip(1));
        assert forall|x: i32| vs.to_set().contains(x) implies (x == vs[0] || vs.skip(
            1,
        ).to_set().contains(x)) by {
            let i = choose|i: int| 0 <= i < vs.len() && vs[i] == x;
            if i > 0 {
                assert(vs.skip(1)[i - 1] == x);
            }
        }
        assert forall|x: i32| vs.skip(1).to_set().contains(x) implies vs.to_set().contains(x) by {
            let i = choose|i: int| 0 <= i < vs.skip(1).len() && vs.skip(1)[i] == x;
            assert(vs[i + 1] == x);
        }
        assert(vs.to_set().contains(vs[0]));
        assert(spec_record_all(store, vs).to_set() =~= store.to_set().union(vs.to_set()));
    }
}

} // verus!

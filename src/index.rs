//! Index from the first operation of an optimization to the optimizations that
//! start with it.
//!
//! Operations are not totally comparable, so they do not key a map directly:
//! they are hashed into buckets, and within a bucket told apart by equality.
use crate::description::{hash_bytes, OpsModel, TensorOpsDescription};
use crate::error::FusionError;
use std::collections::hash_map::DefaultHasher;
use std::collections::HashMap;
use std::hash::Hasher;
use vstd::prelude::*;
use vstd::std_specs::hash::DefaultHasherAdditionalSpecFns;

verus! {

broadcast use vstd::std_specs::hash::group_hash_axioms;

/// Identifier of a registered optimization.
pub type OptimizationId = usize;

/// Structural hash of an operation: the default hasher over its hash bytes.
pub open spec fn key_of(op: OpsModel) -> u64 {
    DefaultHasher::spec_finish(seq![hash_bytes(op)])
}

/// Index used to search optimizations.
#[derive(Clone)]
pub struct OptimizationIndex {
    /// Buckets of `(starting operation, slot)` pairs, keyed by the operation's hash.
    mapping: HashMap<u64, Vec<(TensorOpsDescription, usize)>>,
    /// For each slot, the optimizations that share its starting operation, in
    /// the order they were inserted.
    starters: Vec<Vec<OptimizationId>>,
    /// The slot of each starting operation held in a bucket.
    slot_of: Ghost<Map<OpsModel, nat>>,
}

/// A search in the index.
pub enum SearchQuery<'a> {
    OptimizationsStartingWith(&'a TensorOpsDescription),
}

/// An insertion in the index.
pub enum InsertQuery<'a> {
    NewOptimization { stream: &'a [TensorOpsDescription], id: OptimizationId },
}

impl OptimizationIndex {
    pub closed spec fn well_formed(&self) -> bool {
        &&& forall|k: u64, i: int|
            #![trigger self.mapping@[k][i]]
            self.mapping@.contains_key(k) && 0 <= i < self.mapping@[k].len() ==> {
                let e = self.mapping@[k][i];
                &&& key_of(e.0@) == k
                &&& self.slot_of@.contains_key(e.0@)
                &&& self.slot_of@[e.0@] == e.1
            }
        &&& forall|op: OpsModel| #[trigger]
            self.slot_of@.contains_key(op) ==> {
                &&& self.mapping@.contains_key(key_of(op))
                &&& exists|i: int|
                    0 <= i < self.mapping@[key_of(op)].len() && #[trigger] self.mapping@[key_of(
                        op,
                    )][i].0@ == op
                &&& self.slot_of@[op] < self.starters.len()
            }
        &&& forall|k: u64, i: int, j: int|
            #![trigger self.mapping@[k][i], self.mapping@[k][j]]
            self.mapping@.contains_key(k) && 0 <= i < self.mapping@[k].len() && 0 <= j
                < self.mapping@[k].len() && i != j ==> self.mapping@[k][i].0@ != self.mapping@[k][j].0@
        &&& forall|s: int| 0 <= s < self.starters.len() ==> (#[trigger] self.starters@[s])@.len() > 0
        &&& forall|s: int| 0 <= s < self.starters.len() ==> #[trigger] self.slot_used(s)
        &&& forall|a: OpsModel, b: OpsModel|
            #![trigger self.slot_of@[a], self.slot_of@[b]]
            self.slot_of@.contains_key(a) && self.slot_of@.contains_key(b) && a != b
                ==> self.slot_of@[a] != self.slot_of@[b]
    }

    /// The buckets: for each hash, its `(starting operation, slot)` entries.
    pub closed spec fn buckets(&self) -> Map<u64, Seq<(OpsModel, usize)>> {
        Map::new(
            |k: u64| self.mapping@.contains_key(k),
            |k: u64| self.mapping@[k]@.map_values(|e: (TensorOpsDescription, usize)| (e.0@, e.1)),
        )
    }

    /// The slots: for each, the optimizations that share its starting operation.
    pub closed spec fn slots(&self) -> Seq<Seq<OptimizationId>> {
        self.starters@.map_values(|v: Vec<OptimizationId>| v@)
    }

    /// Some starting operation held in a bucket refers to slot `s`.
    pub closed spec fn slot_used(&self, s: int) -> bool {
        exists|op: OpsModel| #[trigger] self.slot_of@.contains_key(op) && self.slot_of@[op] == s
    }

    /// The optimizations whose defining sequence starts with `op`, in the order
    /// they were inserted.
    pub closed spec fn spec_find(&self, op: OpsModel) -> Seq<OptimizationId> {
        if self.slot_of@.contains_key(op) {
            self.starters@[self.slot_of@[op] as int]@
        } else {
            seq![]
        }
    }

    /// Search optimizations with the given query.
    pub fn find(&self, query: SearchQuery<'_>) -> (r: Vec<OptimizationId>)
        requires
            self.well_formed(),
        ensures
            r@ == match query {
                SearchQuery::OptimizationsStartingWith(ops) => self.spec_find(ops@),
            },
    {
        match query {
            SearchQuery::OptimizationsStartingWith(ops) => self.find_starting_with(ops),
        }
    }

    /// Register a new optimization with the given query.
    ///
    /// Fails with `InvariantViolation`, and changes nothing, when the
    /// optimization's defining sequence is empty.
    pub fn insert(&mut self, query: InsertQuery<'_>) -> (r: Result<(), FusionError>)
        requires
            old(self).well_formed(),
        ensures
            final(self).well_formed(),
            match query {
                InsertQuery::NewOptimization { stream, id } => {
                    &&& (stream@.len() == 0 <==> r == Err::<(), FusionError>(
                        FusionError::InvariantViolation,
                    ))
                    &&& (stream@.len() == 0 ==> final(self).spec_find_all() == old(
                        self,
                    ).spec_find_all())
                    &&& (stream@.len() > 0 ==> r is Ok && final(self).spec_find_all()
                        == old(self).spec_find_all_after(stream@[0]@, id))
                    &&& (stream@.len() > 0 ==> inserted_as(*old(self), *final(self), stream@[0]@, id))
                    &&& (stream@.len() == 0 ==> final(self).buckets() == old(self).buckets()
                        && final(self).slots() == old(self).slots())
                }
            },
    {
        match query {
            InsertQuery::NewOptimization { stream, id } => {
                if stream.len() == 0 {
                    return Err(FusionError::InvariantViolation);
                }
                self.insert_new_ops(&stream[0], id);
                Ok(())
            },
        }
    }

    /// Every lookup of the index, as a function of the starting operation.
    pub open spec fn spec_find_all(&self) -> spec_fn(OpsModel) -> Seq<OptimizationId> {
        |o: OpsModel| self.spec_find(o)
    }

    /// Every lookup of the index after `id` was inserted with starting operation `op`.
    pub open spec fn spec_find_all_after(&self, op: OpsModel, id: OptimizationId) -> spec_fn(
        OpsModel,
    ) -> Seq<OptimizationId> {
        |o: OpsModel|
            if o == op {
                self.spec_find(o).push(id)
            } else {
                self.spec_find(o)
            }
    }

    fn find_starting_with(&self, ops: &TensorOpsDescription) -> (r: Vec<OptimizationId>)
        requires
            self.well_formed(),
        ensures
            r@ == self.spec_find(ops@),
    {
        let key = self.stream_key(ops);
        let values = match self.mapping.get(&key) {
            Some(val) => val,
            None => return Vec::new(),
        };
        let mut i: usize = 0;
        while i < values.len()
            invariant
                self.well_formed(),
                self.mapping@.contains_key(key),
                self.mapping@[key] == *values,
                key == key_of(ops@),
                i <= values.len(),
                forall|j: int| 0 <= j < i ==> (#[trigger] values@[j]).0@ != ops@,
            decreases values.len() - i,
        {
            if values[i].0.same_as(ops) {
                let index = values[i].1;
                assert(self.mapping@[key][i as int].0@ == ops@);
                let found = self.starters[index].clone();
                assert(found@ =~= self.spec_find(ops@));
                return found;
            }
            i = i + 1;
        }
        proof {
            if self.slot_of@.contains_key(ops@) {
                let j = choose|j: int|
                    0 <= j < self.mapping@[key_of(ops@)].len() && #[trigger] self.mapping@[key_of(
                        ops@,
                    )][j].0@ == ops@;
                assert(values@[j].0@ == ops@);
            }
        }
        Vec::new()
    }

    fn insert_new_ops(&mut self, ops: &TensorOpsDescription, new_id: OptimizationId)
        requires
            old(self).well_formed(),
        ensures
            final(self).well_formed(),
            final(self).spec_find_all() == old(self).spec_find_all_after(ops@, new_id),
            inserted_as(*old(self), *final(self), ops@, new_id),
    {
        let key = self.stream_key(ops);
        let removed = self.mapping.remove(&key);
        let mut values = match removed {
            Some(val) => {
                assert(old(self).mapping@.contains_key(key) && old(self).mapping@[key] == val);
                val
            },
            None => {
                assert(!old(self).slot_of@.contains_key(ops@));
                // New starting operation.
                let index = self.starters.len();
                self.starters.push(vec![new_id]);
                self.mapping.insert(key, vec![(ops.clone(), index)]);
                proof {
                    self.slot_of@ = self.slot_of@.insert(ops@, index as nat);
                    assert(self.mapping@ =~= old(self).mapping@.insert(key, self.mapping@[key]));
                    assert(self.mapping@[key]@ =~= Seq::empty().push(self.mapping@[key]@.last()));
                    Self::lemma_new_slot(*old(self), *self, ops@);
                    assert(!old(self).buckets().contains_key(key));
                    assert(self.buckets()[key] =~= seq![(ops@, index)]);
                    assert(self.buckets() =~= old(self).buckets().insert(key, seq![(ops@, index)]));
                    assert(self.starters@[index as int]@ =~= seq![new_id]);
                    assert(self.slots() =~= old(self).slots().push(seq![new_id]));
                }
                assert(self.spec_find_all() =~= old(self).spec_find_all_after(ops@, new_id));
                return;
            },
        };
        let mut i: usize = 0;
        while i < values.len()
            invariant
                old(self).well_formed(),
                old(self).mapping@.contains_key(key),
                old(self).mapping@[key] == values,
                self.mapping@ == old(self).mapping@.remove(key),
                self.starters == old(self).starters,
                self.slot_of == old(self).slot_of,
                key == key_of(ops@),
                i <= values.len(),
                forall|j: int| 0 <= j < i ==> (#[trigger] values@[j]).0@ != ops@,
            decreases values.len() - i,
        {
            if values[i].0.same_as(ops) {
                // A further optimization for a known starting operation.
                let index = values[i].1;
                let mut slot = self.starters[index].clone();
                slot.push(new_id);
                self.starters.set(index, slot);
                self.mapping.insert(key, values);
                assert(self.mapping@ =~= old(self).mapping@);
                assert forall|s: int| 0 <= s < self.starters.len() implies (#[trigger] self.starters@[s])@.len() > 0 by {
                    if s != index {
                        assert(self.starters@[s] == old(self).starters@[s]);
                    }
                }
                proof {
                    let ob = old(self).buckets()[key];
                    assert(old(self).buckets().contains_key(key));
                    assert(ob[i as int].0 == ops@);
                    let j = choose|j: int| 0 <= j < ob.len() && (#[trigger] ob[j]).0 == ops@;
                    assert(old(self).mapping@[key][j].0@ == old(self).mapping@[key][i as int].0@);
                    assert(j == i);
                    assert(self.buckets() =~= old(self).buckets());
                    assert(self.slots() =~= old(self).slots().update(index as int, old(self).slots()[index as int].push(new_id)));
                }
                assert forall|s: int| 0 <= s < self.starters.len() implies #[trigger] self.slot_used(s) by {
                    assert(old(self).slot_used(s));
                    let o = choose|o: OpsModel| #[trigger] old(self).slot_of@.contains_key(o) && old(self).slot_of@[o] == s;
                    assert(self.slot_of@.contains_key(o) && self.slot_of@[o] == s);
                }
                assert(self.well_formed());
                assert(self.spec_find_all() =~= old(self).spec_find_all_after(ops@, new_id));
                return;
            }
            i = i + 1;
        }
        // A new starting operation whose hash collides with known ones.
        let index = self.starters.len();
        self.starters.push(vec![new_id]);
        let ghost values_before = values@;
        values.push((ops.clone(), index));
        self.mapping.insert(key, values);
        proof {
            self.slot_of@ = self.slot_of@.insert(ops@, index as nat);
            if old(self).slot_of@.contains_key(ops@) {
                let j = choose|j: int|
                    0 <= j < old(self).mapping@[key].len()
                        && #[trigger] old(self).mapping@[key][j].0@ == ops@;
                assert(values@[j].0@ == ops@);
            }
            assert(self.mapping@ =~= old(self).mapping@.insert(key, self.mapping@[key]));
            Self::lemma_new_slot(*old(self), *self, ops@);
            let ob = old(self).buckets()[key];
            assert(ob == values_before.map_values(|e: (TensorOpsDescription, usize)| (e.0@, e.1)));
            assert forall|j: int| 0 <= j < ob.len() implies (#[trigger] ob[j]).0 != ops@ by {
                assert(ob[j].0 == values_before[j].0@);
            }
            assert(self.buckets()[key] =~= ob.push((ops@, index)));
            assert(self.buckets() =~= old(self).buckets().insert(key, ob.push((ops@, index))));
            assert(self.starters@[index as int]@ =~= seq![new_id]);
            assert(self.slots() =~= old(self).slots().push(seq![new_id]));
        }
        assert(self.spec_find_all() =~= old(self).spec_find_all_after(ops@, new_id));
    }

    /// Adding a new slot for an operation that the index does not hold, in the
    /// operation's bucket, keeps the index well formed.
    proof fn lemma_new_slot(a: Self, b: Self, op: OpsModel)
        requires
            a.well_formed(),
            !a.slot_of@.contains_key(op),
            b.mapping@.contains_key(key_of(op)),
            b.mapping@ == a.mapping@.insert(key_of(op), b.mapping@[key_of(op)]),
            b.mapping@[key_of(op)]@ == (if a.mapping@.contains_key(key_of(op)) {
                a.mapping@[key_of(op)]@
            } else {
                Seq::empty()
            }).push(b.mapping@[key_of(op)]@.last()),
            b.mapping@[key_of(op)]@.last().0@ == op,
            b.mapping@[key_of(op)]@.last().1 == a.starters.len(),
            b.starters.len() == a.starters.len() + 1,
            forall|s: int| 0 <= s < a.starters.len() ==> b.starters@[s] == a.starters@[s],
            b.starters@[a.starters.len() as int]@.len() > 0,
            b.slot_of@ == a.slot_of@.insert(op, a.starters.len() as nat),
        ensures
            b.well_formed(),
    {
        let key = key_of(op);
        let n = b.mapping@[key].len() - 1;
        assert forall|s: int| 0 <= s < b.starters.len() implies #[trigger] b.slot_used(s) by {
            if s < a.starters.len() {
                assert(a.slot_used(s));
                let o = choose|o: OpsModel| #[trigger] a.slot_of@.contains_key(o) && a.slot_of@[o] == s;
                assert(b.slot_of@.contains_key(o) && b.slot_of@[o] == s);
            } else {
                assert(b.slot_of@.contains_key(op) && b.slot_of@[op] == s);
            }
        }
        assert forall|s: int| 0 <= s < b.starters.len() implies (#[trigger] b.starters@[s])@.len() > 0 by {
            if s < a.starters.len() {
                assert(b.starters@[s] == a.starters@[s]);
            }
        }
        assert forall|k: u64, i: int, j: int|
            #![trigger b.mapping@[k][i], b.mapping@[k][j]]
            b.mapping@.contains_key(k) && 0 <= i < b.mapping@[k].len() && 0 <= j
                < b.mapping@[k].len() && i != j implies b.mapping@[k][i].0@ != b.mapping@[k][j].0@ by {
            if k == key {
                if i < n && j < n {
                    assert(b.mapping@[k][i] == a.mapping@[k][i]);
                    assert(b.mapping@[k][j] == a.mapping@[k][j]);
                } else if i < n {
                    assert(b.mapping@[k][i] == a.mapping@[k][i]);
                    assert(a.slot_of@.contains_key(a.mapping@[k][i].0@));
                } else {
                    assert(b.mapping@[k][j] == a.mapping@[k][j]);
                    assert(a.slot_of@.contains_key(a.mapping@[k][j].0@));
                }
            }
        }
        assert forall|k: u64, i: int|
            #![trigger b.mapping@[k][i]]
            b.mapping@.contains_key(k) && 0 <= i < b.mapping@[k].len() implies {
                let e = b.mapping@[k][i];
                &&& key_of(e.0@) == k
                &&& b.slot_of@.contains_key(e.0@)
                &&& b.slot_of@[e.0@] == e.1
            } by {
            if k == key && i < n {
                assert(b.mapping@[k][i] == a.mapping@[k][i]);
            }
        }
        assert forall|o: OpsModel| #[trigger] b.slot_of@.contains_key(o) implies {
            &&& b.mapping@.contains_key(key_of(o))
            &&& exists|i: int|
                0 <= i < b.mapping@[key_of(o)].len() && #[trigger] b.mapping@[key_of(o)][i].0@ == o
            &&& b.slot_of@[o] < b.starters.len()
        } by {
            if o == op {
                assert(b.mapping@[key][n].0@ == o);
            } else {
                let j = choose|j: int|
                    0 <= j < a.mapping@[key_of(o)].len() && #[trigger] a.mapping@[key_of(o)][j].0@
                        == o;
                assert(b.mapping@[key_of(o)][j] == a.mapping@[key_of(o)][j]);
            }
        }
    }

    /// Hash of an operation, used to pick its bucket.
    pub fn stream_key(&self, ops: &TensorOpsDescription) -> (r: u64)
        ensures
            r == key_of(ops@),
    {
        let bytes = ops.hash_content();
        let mut hasher = DefaultHasher::new();
        hasher.write(bytes.as_slice());
        hasher.finish()
    }
}

/// How inserting `id` with starting operation `op` changes the buckets and
/// slots: a starting operation with a new hash gets a new bucket and a new slot
/// at the end; one whose hash collides with different starting operations is
/// appended to their bucket with a new slot, the other entries untouched; a
/// known starting operation gets `id` at the end of its own slot, and nothing
/// else changes.
pub open spec fn inserted_as(
    before: OptimizationIndex,
    after: OptimizationIndex,
    op: OpsModel,
    id: OptimizationId,
) -> bool {
    let k = key_of(op);
    let n = before.slots().len() as usize;
    if !before.buckets().contains_key(k) {
        &&& after.buckets() == before.buckets().insert(k, seq![(op, n)])
        &&& after.slots() == before.slots().push(seq![id])
    } else if exists|j: int| 0 <= j < before.buckets()[k].len() && (#[trigger] before.buckets()[k][j]).0 == op {
        let j = choose|j: int| 0 <= j < before.buckets()[k].len() && (#[trigger] before.buckets()[k][j]).0 == op;
        let slot = before.buckets()[k][j].1 as int;
        &&& after.buckets() == before.buckets()
        &&& after.slots() == before.slots().update(slot, before.slots()[slot].push(id))
    } else {
        &&& after.buckets() == before.buckets().insert(k, before.buckets()[k].push((op, n)))
        &&& after.slots() == before.slots().push(seq![id])
    }
}

/// Whatever the index held, after an optimization is inserted under `id`, a
/// search for the first operation of its defining sequence returns `id`.
pub proof fn lemma_find_after_insert(
    before: OptimizationIndex,
    after: OptimizationIndex,
    first: OpsModel,
    id: OptimizationId,
)
    requires
        after.spec_find_all() == before.spec_find_all_after(first, id),
    ensures
        after.spec_find(first).contains(id),
{
    assert(after.spec_find(first) == (after.spec_find_all())(first));
    assert(after.spec_find(first).last() == id);
}

/// An insertion never takes an identifier away from a search: whatever any
/// operation found before, it still finds, in the same order, at the front of
/// its list. With the law above, an identifier inserted with a sequence is
/// found from that sequence's first operation after any later insertions.
pub proof fn lemma_insert_keeps_found(
    before: OptimizationIndex,
    after: OptimizationIndex,
    first: OpsModel,
    id: OptimizationId,
    op: OpsModel,
    x: OptimizationId,
)
    requires
        after.spec_find_all() == before.spec_find_all_after(first, id),
        before.spec_find(op).contains(x),
    ensures
        after.spec_find(op).contains(x),
        after.spec_find(op).subrange(0, before.spec_find(op).len() as int) == before.spec_find(op),
{
    assert(after.spec_find(op) == (after.spec_find_all())(op));
    let j = choose|j: int| 0 <= j < before.spec_find(op).len() && before.spec_find(op)[j] == x;
    assert(after.spec_find(op)[j] == x);
    assert(after.spec_find(op).subrange(0, before.spec_find(op).len() as int) =~= before.spec_find(op));
}

/// Two optimizations inserted one after the other with structurally equal first
/// operations are both found from that operation, in insertion order, after
/// what was found before; from an index that knew no optimization starting
/// there, exactly the two.
pub proof fn lemma_same_start_in_insertion_order(
    before: OptimizationIndex,
    middle: OptimizationIndex,
    after: OptimizationIndex,
    first: OpsModel,
    id_1: OptimizationId,
    id_2: OptimizationId,
)
    requires
        middle.spec_find_all() == before.spec_find_all_after(first, id_1),
        after.spec_find_all() == middle.spec_find_all_after(first, id_2),
    ensures
        after.spec_find(first) == before.spec_find(first).push(id_1).push(id_2),
        before.spec_find(first).len() == 0 ==> after.spec_find(first) == seq![id_1, id_2],
{
    assert(middle.spec_find(first) == (middle.spec_find_all())(first));
    assert(after.spec_find(first) == (after.spec_find_all())(first));
    if before.spec_find(first).len() == 0 {
        assert(after.spec_find(first) =~= seq![id_1, id_2]);
    }
}

/// Two optimizations whose first operations hash alike but differ stay apart:
/// a search for the first one's starting operation does not return the second
/// one's identifier, unless it was found there already.
pub proof fn lemma_collisions_kept_apart(
    before: OptimizationIndex,
    middle: OptimizationIndex,
    after: OptimizationIndex,
    first_1: OpsModel,
    id_1: OptimizationId,
    first_2: OpsModel,
    id_2: OptimizationId,
)
    requires
        key_of(first_1) == key_of(first_2),
        first_1 != first_2,
        middle.spec_find_all() == before.spec_find_all_after(first_1, id_1),
        after.spec_find_all() == middle.spec_find_all_after(first_2, id_2),
        !before.spec_find(first_1).contains(id_2),
        id_1 != id_2,
    ensures
        !after.spec_find(first_1).contains(id_2),
        after.spec_find(first_1) == before.spec_find(first_1).push(id_1),
{
    assert(middle.spec_find(first_1) == (middle.spec_find_all())(first_1));
    assert(after.spec_find(first_1) == (after.spec_find_all())(first_1));
    let r = after.spec_find(first_1);
    if r.contains(id_2) {
        let j = choose|j: int| 0 <= j < r.len() && r[j] == id_2;
        if j < r.len() - 1 {
            assert(before.spec_find(first_1)[j] == id_2);
        }
    }
}

/// A search depends on the index and the operation alone: two searches with no
/// insertion between them return the same list.
pub proof fn lemma_find_repeatable(index: OptimizationIndex, op: OpsModel, r_1: Seq<OptimizationId>, r_2: Seq<OptimizationId>)
    requires
        r_1 == index.spec_find(op),
        r_2 == index.spec_find(op),
    ensures
        r_1 == r_2,
{
}

/// Operations of one family over the same tensors hash alike, whatever they
/// compute and whatever their scalar operand.
pub proof fn lemma_key_ignores_kind(a: OpsModel, b: OpsModel)
    requires
        a.family == b.family,
        a.tensors == b.tensors,
    ensures
        key_of(a) == key_of(b),
{
    assert(hash_bytes(a) == hash_bytes(b));
}

impl Default for OptimizationIndex {
    fn default() -> (r: Self)
        ensures
            r.well_formed(),
            forall|o: OpsModel| r.spec_find(o) == Seq::<OptimizationId>::empty(),
            r.buckets() == Map::<u64, Seq<(OpsModel, usize)>>::empty(),
            r.slots() == Seq::<Seq<OptimizationId>>::empty(),
    {
        let r = OptimizationIndex {
            mapping: HashMap::new(),
            starters: Vec::new(),
            slot_of: Ghost(Map::empty()),
        };
        assert(r.buckets() =~= Map::<u64, Seq<(OpsModel, usize)>>::empty());
        assert(r.slots() =~= Seq::<Seq<OptimizationId>>::empty());
        r
    }
}

} // verus!

//! The catalog of known optimizations and the index over their first operations.
use crate::description::{relative_of, OpsModel, TensorOpsDescription};
use crate::error::FusionError;
use crate::index::{InsertQuery, OptimizationId, OptimizationIndex};
use crate::stream::ops_view;
use vstd::prelude::*;

verus! {

/// The relative form of each operation of a sequence.
pub open spec fn relative_seq(ops: Seq<OpsModel>) -> Seq<OpsModel> {
    ops.map_values(|o: OpsModel| relative_of(o))
}

/// Registered optimizations, each defined by a non-empty sequence of operations
/// in relative form, and an index over their first operations.
pub struct OptimizationStore {
    optimizations: Vec<Vec<TensorOpsDescription>>,
    index: OptimizationIndex,
}

impl OptimizationStore {
    /// The defining sequence of each optimization, by identifier.
    pub closed spec fn defs(&self) -> Seq<Seq<OpsModel>> {
        self.optimizations@.map_values(|d: Vec<TensorOpsDescription>| ops_view(d@))
    }

    pub closed spec fn spec_index(&self) -> OptimizationIndex {
        self.index
    }

    pub closed spec fn well_formed(&self) -> bool {
        &&& self.index.well_formed()
        &&& forall|i: int| 0 <= i < self.defs().len() ==> #[trigger] self.defs()[i].len() > 0
        &&& forall|op: OpsModel, j: int|
            #![trigger self.index.spec_find(op)[j]]
            0 <= j < self.index.spec_find(op).len() ==> {
                let id = self.index.spec_find(op)[j];
                &&& id < self.defs().len()
                &&& self.defs()[id as int][0] == op
            }
    }

    /// Every identifier the index returns names a registered optimization that
    /// starts with the searched operation.
    pub proof fn lemma_candidate_valid(&self, op: OpsModel, j: int)
        requires
            self.well_formed(),
            0 <= j < self.spec_index().spec_find(op).len(),
        ensures
            self.spec_index().spec_find(op)[j] < self.defs().len(),
            self.defs()[self.spec_index().spec_find(op)[j] as int][0] == op,
            self.defs()[self.spec_index().spec_find(op)[j] as int].len() > 0,
    {
        let id = self.index.spec_find(op)[j];
        assert(self.defs()[id as int].len() > 0);
    }

    pub fn new() -> (r: Self)
        ensures
            r.well_formed(),
            r.defs() == Seq::<Seq<OpsModel>>::empty(),
    {
        let r = OptimizationStore { optimizations: Vec::new(), index: OptimizationIndex::default() };
        assert(r.defs() =~= Seq::<Seq<OpsModel>>::empty());
        r
    }

    /// Read access to the index, for matching.
    pub fn index(&self) -> (r: &OptimizationIndex)
        requires
            self.well_formed(),
        ensures
            *r == self.spec_index(),
            r.well_formed(),
    {
        &self.index
    }

    pub fn len(&self) -> (r: usize)
        ensures
            r == self.defs().len(),
    {
        self.optimizations.len()
    }

    /// The defining sequence of an optimization.
    pub fn lookup(&self, id: OptimizationId) -> (r: &Vec<TensorOpsDescription>)
        requires
            id < self.defs().len(),
        ensures
            ops_view(r@) == self.defs()[id as int],
    {
        &self.optimizations[id]
    }

    /// Register an optimization defined by `sequence`, in its relative form, in
    /// the catalog and in the index. Its identifier is the number of
    /// optimizations registered before it.
    ///
    /// Fails with `InvariantViolation`, and changes nothing, when `sequence` is empty.
    pub fn register(&mut self, sequence: &[TensorOpsDescription]) -> (r: Result<
        OptimizationId,
        FusionError,
    >)
        requires
            old(self).well_formed(),
        ensures
            final(self).well_formed(),
            sequence@.len() == 0 ==> {
                &&& r == Err::<OptimizationId, FusionError>(FusionError::InvariantViolation)
                &&& final(self).defs() == old(self).defs()
                &&& final(self).spec_index().spec_find_all() == old(self).spec_index().spec_find_all()
            },
            sequence@.len() > 0 ==> {
                let id = old(self).defs().len() as OptimizationId;
                &&& r == Ok::<OptimizationId, FusionError>(id)
                &&& final(self).defs() == old(self).defs().push(relative_seq(ops_view(sequence@)))
                &&& final(self).spec_index().spec_find_all() == old(self).spec_index().spec_find_all_after(relative_of(sequence@[0]@), id)
            },
    {
        if sequence.len() == 0 {
            return Err(FusionError::InvariantViolation);
        }
        let mut relative: Vec<TensorOpsDescription> = Vec::new();
        let mut i: usize = 0;
        while i < sequence.len()
            invariant
                i <= sequence@.len(),
                ops_view(relative@) == relative_seq(ops_view(sequence@)).take(i as int),
            decreases sequence@.len() - i,
        {
            let op = sequence[i].to_relative();
            assert(op@ == relative_seq(ops_view(sequence@))[i as int]);
            proof {
                crate::stream::lemma_ops_view_push(relative@, op);
            }
            relative.push(op);
            i = i + 1;
            assert(ops_view(relative@) =~= relative_seq(ops_view(sequence@)).take(i as int));
        }
        assert(ops_view(relative@) =~= relative_seq(ops_view(sequence@)));
        assert(relative@[0]@ == ops_view(relative@)[0]);
        let id = self.optimizations.len();
        let inserted = self.index.insert(
            InsertQuery::NewOptimization { stream: relative.as_slice(), id },
        );
        assert(inserted is Ok);
        self.optimizations.push(relative);
        assert(self.defs() =~= old(self).defs().push(relative_seq(ops_view(sequence@))));
        assert forall|op: OpsModel, j: int|
            0 <= j < self.index.spec_find(op).len() implies {
                let id = #[trigger] self.index.spec_find(op)[j];
                &&& id < self.defs().len()
                &&& self.defs()[id as int][0] == op
            } by {
            assert(self.index.spec_find(op) == (self.index.spec_find_all())(op));
            assert(old(self).index.spec_find(op) == (old(self).index.spec_find_all())(op));
            if op != relative_of(sequence@[0]@) || j < self.index.spec_find(op).len() - 1 {
                assert(self.index.spec_find(op)[j] == old(self).index.spec_find(op)[j]);
            }
        }
        Ok(id)
    }
}

} // verus!

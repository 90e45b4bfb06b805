//! An ordered buffer of operations waiting to be executed.
use crate::description::{OpsModel, TensorOpsDescription};
use vstd::prelude::*;

verus! {

/// The values of a sequence of operations.
pub open spec fn ops_view(ops: Seq<TensorOpsDescription>) -> Seq<OpsModel> {
    ops.map_values(|o: TensorOpsDescription| o@)
}

/// Viewing a sequence with one more operation at its tail.
pub proof fn lemma_ops_view_push(ops: Seq<TensorOpsDescription>, op: TensorOpsDescription)
    ensures
        ops_view(ops.push(op)) == ops_view(ops).push(op@),
{
    assert forall|k: int| 0 <= k < ops.len() implies #[trigger] ops_view(ops.push(op))[k]
        == ops_view(ops)[k] by {
        assert(ops.push(op)[k] == ops[k]);
    }
    assert(ops_view(ops.push(op)) =~= ops_view(ops).push(op@));
}

/// Operations registered and not executed yet, in registration order.
pub struct Stream {
    ops: Vec<TensorOpsDescription>,
}

impl View for Stream {
    type V = Seq<OpsModel>;

    closed spec fn view(&self) -> Seq<OpsModel> {
        ops_view(self.ops@)
    }
}

impl Stream {
    pub fn new() -> (r: Self)
        ensures
            r@ == Seq::<OpsModel>::empty(),
    {
        let r = Stream { ops: Vec::new() };
        assert(r@ =~= Seq::<OpsModel>::empty());
        r
    }

    /// Append an operation at the tail.
    pub fn add(&mut self, op: TensorOpsDescription)
        ensures
            final(self)@ == old(self)@.push(op@),
    {
        self.ops.push(op);
        assert(self@ =~= old(self)@.push(op@));
    }

    pub fn len(&self) -> (r: usize)
        ensures
            r == self@.len(),
    {
        self.ops.len()
    }

    pub fn is_empty(&self) -> (r: bool)
        ensures
            r == (self@.len() == 0),
    {
        self.ops.len() == 0
    }

    /// The operation at position `i`, counted from the head.
    pub fn get(&self, i: usize) -> (r: &TensorOpsDescription)
        requires
            i < self@.len(),
        ensures
            r@ == self@[i as int],
    {
        &self.ops[i]
    }

    /// Copies of the first `count` operations.
    pub fn head(&self, count: usize) -> (r: Vec<TensorOpsDescription>)
        requires
            count <= self@.len(),
        ensures
            ops_view(r@) == self@.take(count as int),
    {
        let mut r: Vec<TensorOpsDescription> = Vec::new();
        let mut i: usize = 0;
        while i < count
            invariant
                i <= count,
                count <= self@.len(),
                ops_view(r@) == self@.take(i as int),
            decreases count - i,
        {
            let op = self.ops[i].clone();
            assert(op@ == self@[i as int]);
            proof {
                lemma_ops_view_push(r@, op);
            }
            r.push(op);
            i = i + 1;
            assert(ops_view(r@) =~= self@.take(i as int));
        }
        r
    }

    /// Remove the first `count` operations.
    pub fn consume(&mut self, count: usize)
        requires
            count <= old(self)@.len(),
        ensures
            final(self)@ == old(self)@.skip(count as int),
    {
        let rest = self.ops.split_off(count);
        self.ops = rest;
        assert(self@ =~= old(self)@.skip(count as int));
    }
}

} // verus!

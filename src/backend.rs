//! The backend that executes operations, and the record of what it was asked.
use crate::description::{OpsModel, TensorOpsDescription};
use crate::error::FusionError;
use crate::index::OptimizationId;
use crate::stream::ops_view;
use vstd::prelude::*;

verus! {

/// What a backend offers the processor.
pub trait FusionBackend {
    /// Execute one operation on its own.
    fn execute_raw(&mut self, op: &TensorOpsDescription) -> Result<(), FusionError>;

    /// Execute optimization `id` bound to the operations it replaces.
    fn execute_fused(&mut self, id: OptimizationId, ops: &[TensorOpsDescription]) -> Result<
        (),
        FusionError,
    >;
}

/// One request made to the backend.
pub enum Dispatch {
    /// One operation executed on its own.
    Raw(OpsModel),
    /// An optimization executed in place of the operations that follow it.
    Fused(OptimizationId, Seq<OpsModel>),
}

/// A backend together with the record of every request it received and the
/// answer it gave. Only the two request methods below extend the record, each
/// with its actual arguments and the backend's actual answer.
pub struct Recorded<B> {
    backend: B,
    log: Ghost<Seq<(Dispatch, Result<(), FusionError>)>>,
}

impl<B: FusionBackend> Recorded<B> {
    /// Every request received so far, in order, with the answer given to it.
    pub closed spec fn requests(&self) -> Seq<(Dispatch, Result<(), FusionError>)> {
        self.log@
    }

    pub fn new(backend: B) -> (r: Self)
        ensures
            r.requests() == Seq::<(Dispatch, Result<(), FusionError>)>::empty(),
    {
        Recorded { backend, log: Ghost(Seq::empty()) }
    }

    /// The backend itself.
    pub fn backend(&self) -> &B {
        &self.backend
    }

    /// Give the backend back, ending the record.
    pub fn into_backend(self) -> B {
        self.backend
    }

    /// Ask the backend to execute one operation on its own.
    pub fn execute_raw(&mut self, op: &TensorOpsDescription) -> (r: Result<(), FusionError>)
        ensures
            final(self).requests() == old(self).requests().push((Dispatch::Raw(op@), r)),
    {
        let r = self.backend.execute_raw(op);
        proof {
            self.log@ = self.log@.push((Dispatch::Raw(op@), r));
        }
        r
    }

    /// Ask the backend to execute optimization `id` bound to `ops`.
    pub fn execute_fused(&mut self, id: OptimizationId, ops: &[TensorOpsDescription]) -> (r: Result<
        (),
        FusionError,
    >)
        ensures
            final(self).requests() == old(self).requests().push(
                (Dispatch::Fused(id, ops_view(ops@)), r),
            ),
    {
        let r = self.backend.execute_fused(id, ops);
        proof {
            self.log@ = self.log@.push((Dispatch::Fused(id, ops_view(ops@)), r));
        }
        r
    }
}

} // verus!

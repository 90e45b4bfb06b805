//! Streams of operations sharing one store of optimizations.
use crate::description::{OpsModel, TensorOpsDescription};
use crate::error::FusionError;
use crate::processor::{
    answered, expand, faithful, follows, step, waits, ExecutionMode, Processor,
};
use crate::backend::{Dispatch, FusionBackend, Recorded};
use crate::store::{relative_seq, OptimizationStore};
use crate::stream::{ops_view, Stream};
use vstd::prelude::*;

verus! {

/// Keep track of multiple concurrent streams of operations.
///
/// Operations are registered on the first stream.
pub struct MultiStream {
    items: Vec<Item>,
    optimizations: OptimizationStore,
}

struct Item {
    stream: Stream,
    executor: Processor,
}

impl Item {
    fn new() -> (r: Self)
        ensures
            r.stream@ == Seq::<OpsModel>::empty(),
            r.executor.dispatched() == Seq::<Dispatch>::empty(),
    {
        Item { stream: Stream::new(), executor: Processor::new() }
    }
}

/// What a stream has been given, in order: what was dispatched, then what waits.
pub open spec fn registered(log: Seq<Dispatch>, pending: Seq<OpsModel>) -> Seq<OpsModel> {
    expand(log) + pending
}

/// A run took a stream from `old_pending` with log `old_log` to `new_pending`
/// with log `new_log`: the old log was kept, each new request is the processor's
/// `step` on what remained, and nothing registered was lost or reordered.
pub open spec fn ran(
    store: OptimizationStore,
    old_log: Seq<Dispatch>,
    old_pending: Seq<OpsModel>,
    new_log: Seq<Dispatch>,
    new_pending: Seq<OpsModel>,
) -> bool {
    &&& new_log.len() >= old_log.len()
    &&& new_log.subrange(0, old_log.len() as int) == old_log
    &&& follows(store, old_pending, new_log.skip(old_log.len() as int))
    &&& registered(new_log, new_pending) == registered(old_log, old_pending)
}

/// The new dispatches of the first `n` streams, stream after stream: what each
/// log holds beyond its old length.
pub open spec fn new_dispatches(old_logs: Seq<Seq<Dispatch>>, new_logs: Seq<Seq<Dispatch>>, n: int) -> Seq<Dispatch>
    decreases n,
{
    if n <= 0 {
        seq![]
    } else {
        new_dispatches(old_logs, new_logs, n - 1) + new_logs[n - 1].skip(old_logs[n - 1].len() as int)
    }
}

proof fn lemma_new_dispatches_frame(o: Seq<Seq<Dispatch>>, a: Seq<Seq<Dispatch>>, b: Seq<Seq<Dispatch>>, n: int)
    requires
        forall|k: int| 0 <= k < n ==> #[trigger] a[k] == b[k],
    ensures
        new_dispatches(o, a, n) == new_dispatches(o, b, n),
    decreases n,
{
    if n > 0 {
        lemma_new_dispatches_frame(o, a, b, n - 1);
    }
}

proof fn lemma_answered_concat(a: Seq<Dispatch>, b: Seq<Dispatch>)
    ensures
        answered(a + b) == answered(a) + answered(b),
{
    assert(answered(a + b) =~= answered(a) + answered(b));
}

/// A drain whose every request the backend accepted succeeded and left every
/// stream empty: an error of a drain is always a refusal by the backend.
pub proof fn lemma_accepted_drain_empties(
    before: MultiStream,
    after: MultiStream,
    requests_before: Seq<(Dispatch, Result<(), FusionError>)>,
    requests_after: Seq<(Dispatch, Result<(), FusionError>)>,
    r: Result<(), FusionError>,
)
    requires
        r is Ok ==> forall|i: int| 0 <= i < before.streams().len() ==> (#[trigger] after.streams()[i]).len() == 0,
        r is Err ==> exists|i: int| 0 <= i < before.streams().len() && requests_after == requests_before + answered(new_dispatches(before.logs(), after.logs(), i + 1)) + seq![(step(after.store(), #[trigger] after.streams()[i]), r)],
        forall|k: int| requests_before.len() <= k < requests_after.len() ==> (#[trigger] requests_after[k]).1 is Ok,
    ensures
        r is Ok,
        forall|i: int| 0 <= i < before.streams().len() ==> (#[trigger] after.streams()[i]).len() == 0,
{
    if r is Err {
        let i = choose|i: int| 0 <= i < before.streams().len() && requests_after == requests_before + answered(new_dispatches(before.logs(), after.logs(), i + 1)) + seq![(step(after.store(), #[trigger] after.streams()[i]), r)];
        let k = requests_after.len() - 1;
        assert(requests_after[k].1 == r);
    }
}

/// A run that did nothing.
pub proof fn lemma_ran_idle(store: OptimizationStore, log: Seq<Dispatch>, pending: Seq<OpsModel>)
    ensures
        ran(store, log, pending, log, pending),
{
    assert(log.skip(log.len() as int) =~= Seq::<Dispatch>::empty());
    assert(log.subrange(0, log.len() as int) =~= log);
}

impl MultiStream {
    /// The operations waiting in each stream.
    pub closed spec fn streams(&self) -> Seq<Seq<OpsModel>> {
        self.items@.map_values(|i: Item| i.stream@)
    }

    /// The requests each stream made of the backend.
    pub closed spec fn logs(&self) -> Seq<Seq<Dispatch>> {
        self.items@.map_values(|i: Item| i.executor.dispatched())
    }

    /// The request each stream's backend refused in its last run, if any.
    pub closed spec fn failures(&self) -> Seq<Option<Dispatch>> {
        self.items@.map_values(|i: Item| i.executor.failure())
    }

    /// The defining sequences of the registered optimizations.
    pub closed spec fn defs(&self) -> Seq<Seq<OpsModel>> {
        self.optimizations.defs()
    }

    /// The store of optimizations the streams share.
    pub closed spec fn store(&self) -> OptimizationStore {
        self.optimizations
    }

    pub closed spec fn well_formed(&self) -> bool {
        &&& self.optimizations.well_formed()
        &&& forall|i: int| 0 <= i < self.items@.len() ==> faithful(#[trigger] self.items@[i].executor.dispatched(), self.optimizations.defs())
    }

    /// One empty stream, and a store that holds the optimizations of `catalog`,
    /// in relative form, with identifiers in catalog order.
    pub fn new(catalog: Vec<Vec<TensorOpsDescription>>) -> (r: Self)
        requires
            forall|i: int| 0 <= i < catalog@.len() ==> (#[trigger] catalog@[i])@.len() > 0,
        ensures
            r.well_formed(),
            r.streams() == seq![Seq::<OpsModel>::empty()],
            r.logs() == seq![Seq::<Dispatch>::empty()],
            r.defs() == catalog@.map_values(|d: Vec<TensorOpsDescription>| relative_seq(ops_view(d@))),
    {
        let mut optimizations = OptimizationStore::new();
        let mut i: usize = 0;
        while i < catalog.len()
            invariant
                i <= catalog@.len(),
                forall|k: int| 0 <= k < catalog@.len() ==> (#[trigger] catalog@[k])@.len() > 0,
                optimizations.well_formed(),
                optimizations.defs() == catalog@.take(i as int).map_values(|d: Vec<TensorOpsDescription>| relative_seq(ops_view(d@))),
            decreases catalog@.len() - i,
        {
            let _ = optimizations.register(catalog[i].as_slice());
            i = i + 1;
            assert(optimizations.defs() =~= catalog@.take(i as int).map_values(|d: Vec<TensorOpsDescription>| relative_seq(ops_view(d@))));
        }
        assert(catalog@.take(catalog@.len() as int) =~= catalog@);
        let r = MultiStream { items: vec![Item::new()], optimizations };
        assert(r.streams() =~= seq![Seq::<OpsModel>::empty()]);
        assert(r.logs() =~= seq![Seq::<Dispatch>::empty()]);
        r
    }

    /// Register a new tensor operation on the first stream, and run that
    /// stream in `Lazy` mode.
    pub fn register<B: FusionBackend>(&mut self, ops_desc: TensorOpsDescription, backend: &mut Recorded<B>) -> (r: Result<(), FusionError>)
        requires
            old(self).well_formed(),
        ensures
            final(self).well_formed(),
            final(self).store() == old(self).store(),
            final(self).streams().len() == old(self).streams().len(),
            old(self).streams().len() == 0 ==> r is Ok && final(backend).requests() == old(backend).requests(),
            old(self).streams().len() > 0 ==> {
                let pending = old(self).streams()[0].push(ops_desc@);
                let before = old(self).logs()[0];
                let after = final(self).logs()[0];
                let new = after.skip(before.len() as int);
                &&& ran(final(self).store(), before, pending, after, final(self).streams()[0])
                &&& forall|k: int| 0 <= k < new.len() - 1 ==> #[trigger] new[k] is Fused
                &&& r is Ok <==> final(self).failures()[0] is None
                &&& final(backend).requests() == old(backend).requests() + answered(new) + match final(self).failures()[0] {
                    Some(d) => seq![(d, r)],
                    None => Seq::empty(),
                }
                &&& r is Err ==> final(self).streams()[0].len() > 0 && final(self).failures()[0] == Some(step(final(self).store(), final(self).streams()[0]))
                &&& r is Ok && final(self).streams()[0].len() > 0 ==> waits(final(self).store(), final(self).streams()[0]) || (new.len() > 0 && after.last() is Raw)
                &&& waits(old(self).store(), pending) ==> r is Ok && final(self).streams()[0] == pending && after == before
            },
            forall|i: int| 0 < i < old(self).streams().len() ==> final(self).streams()[i] == old(self).streams()[i] && final(self).logs()[i] == old(self).logs()[i] && final(self).failures()[i] == old(self).failures()[i],
    {
        if self.items.len() == 0 {
            return Ok(());
        }
        let ghost op = ops_desc@;
        let mut item = self.items.remove(0);
        assert(item == old(self).items@[0]);
        item.stream.add(ops_desc);
        let r = item.executor.process(&mut item.stream, &self.optimizations, backend, ExecutionMode::Lazy);
        proof {
            let n = old(self).items@[0].stream@.len() + 1 - item.stream@.len();
            let s = old(self).items@[0].stream@.push(op);
            assert(s =~= s.take(n) + s.skip(n));
            let before = old(self).items@[0].executor.dispatched();
            let after = item.executor.dispatched();
            assert(after =~= before + after.skip(before.len() as int));
            crate::processor::lemma_faithful_concat(before, after.skip(before.len() as int), self.optimizations.defs());
            assert(registered(after, item.stream@) =~= registered(before, s));
            if after.skip(before.len() as int).len() > 0 {
                assert(after.last() == after.skip(before.len() as int).last());
            }
        }
        self.items.insert(0, item);
        proof {
            assert forall|i: int| 0 < i < old(self).items@.len() implies self.items@[i] == old(self).items@[i] by {}
            assert forall|i: int| 0 < i < old(self).items@.len() implies self.streams()[i] == old(self).streams()[i] && self.logs()[i] == old(self).logs()[i] && self.failures()[i] == old(self).failures()[i] by {}
            assert(self.streams()[0] == self.items@[0].stream@);
            assert(self.logs()[0] == self.items@[0].executor.dispatched());
            assert(self.failures()[0] == self.items@[0].executor.failure());
            assert(self.items@[0].executor.dispatched().skip(old(self).items@[0].executor.dispatched().len() as int) == self.logs()[0].skip(old(self).logs()[0].len() as int));
        }
        r
    }

    /// Run every stream in `Sync` mode, in order, until all are empty or the
    /// backend fails; after a failure no further stream runs.
    pub fn drain<B: FusionBackend>(&mut self, backend: &mut Recorded<B>) -> (r: Result<(), FusionError>)
        requires
            old(self).well_formed(),
        ensures
            final(self).well_formed(),
            final(self).store() == old(self).store(),
            final(self).streams().len() == old(self).streams().len(),
            forall|i: int| 0 <= i < old(self).streams().len() ==> ran(final(self).store(), old(self).logs()[i], old(self).streams()[i], #[trigger] final(self).logs()[i], final(self).streams()[i]),
            r is Ok ==> forall|i: int| 0 <= i < old(self).streams().len() ==> (#[trigger] final(self).streams()[i]).len() == 0 && final(self).failures()[i] is None,
            r is Ok ==> final(backend).requests() == old(backend).requests() + answered(new_dispatches(old(self).logs(), final(self).logs(), old(self).streams().len() as int)),
            (forall|i: int| 0 <= i < old(self).streams().len() ==> (#[trigger] old(self).streams()[i]).len() == 0) ==> r is Ok && final(self).logs() == old(self).logs() && final(self).streams() == old(self).streams(),
            r is Err ==> exists|i: int| 0 <= i < old(self).streams().len() && {
                &&& (#[trigger] final(self).streams()[i]).len() > 0
                &&& final(self).failures()[i] == Some(step(final(self).store(), final(self).streams()[i]))
                &&& final(backend).requests() == old(backend).requests() + answered(new_dispatches(old(self).logs(), final(self).logs(), i + 1)) + seq![(step(final(self).store(), final(self).streams()[i]), r)]
                &&& forall|j: int| i < j < old(self).streams().len() ==> final(self).streams()[j] == old(self).streams()[j] && final(self).logs()[j] == old(self).logs()[j] && final(self).failures()[j] == old(self).failures()[j]
            },
    {
        let mut i: usize = 0;
        while i < self.items.len()
            invariant
                self.well_formed(),
                self.optimizations == old(self).optimizations,
                self.items@.len() == old(self).items@.len(),
                i <= self.items@.len(),
                forall|k: int| i <= k < self.items@.len() ==> self.items@[k] == old(self).items@[k],
                forall|k: int| 0 <= k < i ==> ran(self.store(), old(self).logs()[k], old(self).streams()[k], #[trigger] self.logs()[k], self.streams()[k]),
                forall|k: int| 0 <= k < i ==> (#[trigger] self.streams()[k]).len() == 0,
                forall|k: int| 0 <= k < i ==> (#[trigger] self.failures()[k]) is None,
                backend.requests() == old(backend).requests() + answered(new_dispatches(old(self).logs(), self.logs(), i as int)),
                (forall|k: int| 0 <= k < old(self).streams().len() ==> (#[trigger] old(self).streams()[k]).len() == 0) ==> forall|k: int| 0 <= k < i ==> #[trigger] self.logs()[k] == old(self).logs()[k] && self.streams()[k] == old(self).streams()[k],
            decreases old(self).items@.len() - i,
        {
            let ghost prev = self.items@;
            let ghost prev_logs = self.logs();
            let ghost prev_streams = self.streams();
            let ghost prev_failures = self.failures();
            let ghost prev_requests = backend.requests();
            let mut item = self.items.remove(i);
            assert(item == old(self).items@[i as int]);
            let ghost s = item.stream@;
            let ghost before = item.executor.dispatched();
            assert(s == old(self).streams()[i as int] && before == old(self).logs()[i as int]);
            let r = item.executor.process(&mut item.stream, &self.optimizations, backend, ExecutionMode::Sync);
            proof {
                let n = s.len() - item.stream@.len();
                assert(s =~= s.take(n) + s.skip(n));
                let after = item.executor.dispatched();
                assert(after =~= before + after.skip(before.len() as int));
                crate::processor::lemma_faithful_concat(before, after.skip(before.len() as int), self.optimizations.defs());
                assert(registered(after, item.stream@) =~= registered(before, s));
                if s.len() == 0 {
                    assert(item.stream@ == s && after == before);
                }
            }
            self.items.insert(i, item);
            proof {
                assert forall|k: int| 0 <= k < self.items@.len() && k != i implies self.items@[k] == prev[k] by {}
                assert(self.logs()[i as int] == self.items@[i as int].executor.dispatched());
                assert(self.streams()[i as int] == self.items@[i as int].stream@);
                assert(self.failures()[i as int] == self.items@[i as int].executor.failure());
                assert forall|k: int| 0 <= k < i implies #[trigger] self.logs()[k] == prev_logs[k] && self.streams()[k] == prev_streams[k] && self.failures()[k] == prev_failures[k] by {
                    assert(prev_streams[k] == prev[k].stream@);
                    assert(prev_failures[k] == prev[k].executor.failure());
                }
                assert forall|k: int| 0 <= k < i implies (#[trigger] self.streams()[k]).len() == 0 by {
                    assert(self.streams()[k] == prev_streams[k]);
                }
                assert forall|k: int| 0 <= k < i implies (#[trigger] self.failures()[k]) is None by {
                    assert(self.failures()[k] == prev_failures[k]);
                }
                assert forall|k: int| 0 <= k < i implies #[trigger] self.logs()[k] == prev_logs[k] by {}
                lemma_new_dispatches_frame(old(self).logs(), self.logs(), prev_logs, i as int);
                let new_i = self.logs()[i as int].skip(old(self).logs()[i as int].len() as int);
                assert(new_dispatches(old(self).logs(), self.logs(), i + 1) == new_dispatches(old(self).logs(), prev_logs, i as int) + new_i);
                lemma_answered_concat(new_dispatches(old(self).logs(), prev_logs, i as int), new_i);
                assert(self.items@[i as int].executor.dispatched().skip(before.len() as int) == new_i);
            }
            match r {
                Ok(()) => {},
                Err(e) => {
                    proof {
                        assert(self.streams()[i as int].len() > 0);
                        assert forall|j: int| i < j < old(self).streams().len() implies self.streams()[j] == old(self).streams()[j] && self.logs()[j] == old(self).logs()[j] && self.failures()[j] == old(self).failures()[j] by {}
                        assert forall|j: int| 0 <= j < old(self).streams().len() implies ran(self.store(), old(self).logs()[j], old(self).streams()[j], #[trigger] self.logs()[j], self.streams()[j]) by {
                            if j > i {
                                lemma_ran_idle(self.store(), old(self).logs()[j], old(self).streams()[j]);
                            }
                        }
                    }
                    return Err(e);
                },
            }
            proof {
                assert(r is Ok);
                assert(self.streams()[i as int].len() == 0);
                assert(self.failures()[i as int] is None);
                assert forall|k: int| 0 <= k <= i implies (#[trigger] self.streams()[k]).len() == 0 by {
                    if k < i {
                        assert(self.streams()[k] == prev_streams[k]);
                    }
                }
                assert forall|k: int| 0 <= k <= i implies (#[trigger] self.failures()[k]) is None by {
                    if k < i {
                        assert(self.failures()[k] == prev_failures[k]);
                    }
                }
            }
            i = i + 1;
        }
        proof {
            assert(old(self).streams().len() == i);
            assert forall|k: int| 0 <= k < old(self).streams().len() implies (#[trigger] self.streams()[k]).len() == 0 && self.failures()[k] is None by {
                assert(k < i);
                assert(self.streams()[k].len() == 0);
                assert(self.failures()[k] is None);
            }
            if forall|k: int| 0 <= k < old(self).streams().len() ==> (#[trigger] old(self).streams()[k]).len() == 0 {
                assert forall|k: int| 0 <= k < self.items@.len() implies #[trigger] self.streams()[k] == old(self).streams()[k] by {
                    assert(self.logs()[k] == old(self).logs()[k]);
                }
                assert(self.logs() =~= old(self).logs());
                assert(self.streams() =~= old(self).streams());
            }
        }
        Ok(())
    }
}

} // verus!

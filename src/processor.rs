//! Execution of a stream: replaces the longest registered sequence found at the
//! stream's head by its optimization, or executes the head operation on its own.
use crate::description::{relative_of, OpsModel, TensorOpsDescription};
use crate::error::FusionError;
use crate::index::{OptimizationId, SearchQuery};
use crate::store::{relative_seq, OptimizationStore};
use crate::backend::{Dispatch, FusionBackend, Recorded};
use crate::stream::{ops_view, Stream};
use vstd::prelude::*;

verus! {

/// How far an invocation of the processor goes.
#[derive(Clone, Copy, Debug, PartialEq, Eq, Structural)]
pub enum ExecutionMode {
    /// May stop before the stream is empty, to let more operations accumulate.
    Lazy,
    /// Runs until the stream is empty.
    Sync,
}

/// Requests that the backend carried out.
pub open spec fn answered(ds: Seq<Dispatch>) -> Seq<(Dispatch, Result<(), FusionError>)> {
    ds.map_values(|d: Dispatch| (d, Ok::<(), FusionError>(())))
}

/// Apply the backend's answer to a request that covered the first `consumed`
/// operations of the stream: on success they leave the stream, on failure the
/// stream stays as it was and the failure is returned.
pub fn settle(stream: &mut Stream, consumed: usize, result: Result<(), FusionError>) -> (r: Result<(), FusionError>)
    requires
        consumed <= old(stream)@.len(),
    ensures
        result is Ok ==> r is Ok && final(stream)@ == old(stream)@.skip(consumed as int),
        result is Err ==> r == result && final(stream)@ == old(stream)@,
{
    match result {
        Ok(()) => {
            stream.consume(consumed);
            Ok(())
        },
        Err(e) => Err(e),
    }
}

pub open spec fn dispatch_ops(d: Dispatch) -> Seq<OpsModel> {
    match d {
        Dispatch::Raw(op) => seq![op],
        Dispatch::Fused(_, ops) => ops,
    }
}

/// The operations that a sequence of dispatches stands for, in order.
pub open spec fn expand(log: Seq<Dispatch>) -> Seq<OpsModel>
    decreases log.len(),
{
    if log.len() == 0 {
        seq![]
    } else {
        expand(log.drop_last()) + dispatch_ops(log.last())
    }
}

/// Each fused dispatch replaced operations whose relative form is the
/// optimization's defining sequence.
pub open spec fn faithful(log: Seq<Dispatch>, defs: Seq<Seq<OpsModel>>) -> bool {
    forall|k: int|
        0 <= k < log.len() ==> match #[trigger] log[k] {
            Dispatch::Fused(id, ops) => id < defs.len() && relative_seq(ops) == defs[id as int],
            Dispatch::Raw(_) => true,
        }
}

/// The defining sequence `def` matches the head of `ops`.
pub open spec fn matches_prefix(def: Seq<OpsModel>, ops: Seq<OpsModel>) -> bool {
    &&& 0 < def.len() <= ops.len()
    &&& forall|i: int| 0 <= i < def.len() ==> def[i] == relative_of(#[trigger] ops[i])
}

/// `ops` is a proper beginning of `def`: more operations could complete it.
pub open spec fn may_grow_into(def: Seq<OpsModel>, ops: Seq<OpsModel>) -> bool {
    &&& ops.len() < def.len()
    &&& forall|i: int| 0 <= i < ops.len() ==> def[i] == relative_of(#[trigger] ops[i])
}

/// The optimizations that start like the head of `ops`, in registration order.
pub open spec fn candidates(store: OptimizationStore, ops: Seq<OpsModel>) -> Seq<OptimizationId> {
    store.spec_index().spec_find(relative_of(ops[0]))
}

/// Candidate `pos` matches, no candidate matches with a longer sequence, and
/// none before it with one as long.
pub open spec fn is_best_match(store: OptimizationStore, ops: Seq<OpsModel>, pos: int) -> bool {
    let c = candidates(store, ops);
    let d = store.defs();
    &&& 0 <= pos < c.len()
    &&& matches_prefix(d[c[pos] as int], ops)
    &&& forall|q: int|
        0 <= q < c.len() && matches_prefix(#[trigger] d[c[q] as int], ops) ==> {
            &&& d[c[q] as int].len() <= d[c[pos] as int].len()
            &&& q < pos ==> d[c[q] as int].len() < d[c[pos] as int].len()
        }
}

/// Some candidate could still match once more operations arrive.
pub open spec fn waits(store: OptimizationStore, ops: Seq<OpsModel>) -> bool {
    let c = candidates(store, ops);
    exists|q: int| 0 <= q < c.len() && may_grow_into(#[trigger] store.defs()[c[q] as int], ops)
}

/// Whether `def` matches the head of the stream.
pub fn prefix_matches(def: &Vec<TensorOpsDescription>, stream: &Stream) -> (r: bool)
    ensures
        r == matches_prefix(ops_view(def@), stream@),
{
    if def.len() == 0 || def.len() > stream.len() {
        return false;
    }
    let mut i: usize = 0;
    while i < def.len()
        invariant
            def.len() <= stream@.len(),
            i <= def.len(),
            forall|j: int| 0 <= j < i ==> ops_view(def@)[j] == relative_of(#[trigger] stream@[j]),
        decreases def.len() - i,
    {
        let rel = stream.get(i).to_relative();
        if !def[i].same_as(&rel) {
            return false;
        }
        i = i + 1;
    }
    true
}

/// Whether the stream is a proper beginning of `def`.
pub fn prefix_of(def: &Vec<TensorOpsDescription>, stream: &Stream) -> (r: bool)
    ensures
        r == may_grow_into(ops_view(def@), stream@),
{
    if stream.len() >= def.len() {
        return false;
    }
    let mut i: usize = 0;
    while i < stream.len()
        invariant
            stream@.len() < def.len(),
            i <= stream@.len(),
            forall|j: int| 0 <= j < i ==> ops_view(def@)[j] == relative_of(#[trigger] stream@[j]),
        decreases stream@.len() - i,
    {
        let rel = stream.get(i).to_relative();
        if !def[i].same_as(&rel) {
            return false;
        }
        i = i + 1;
    }
    true
}

/// The optimizations that start like the head of the stream.
fn find_candidates(store: &OptimizationStore, stream: &Stream) -> (r: Vec<OptimizationId>)
    requires
        store.well_formed(),
        stream@.len() > 0,
    ensures
        r@ == candidates(*store, stream@),
        forall|q: int| 0 <= q < r@.len() ==> #[trigger] r@[q] < store.defs().len(),
{
    let first = stream.get(0).to_relative();
    let r = store.index().find(SearchQuery::OptimizationsStartingWith(&first));
    assert forall|q: int| 0 <= q < r@.len() implies #[trigger] r@[q] < store.defs().len() by {
        store.lemma_candidate_valid(relative_of(stream@[0]), q);
    }
    r
}

/// The longest registered sequence that matches the head of the stream, the
/// earliest registered among those as long; `None` when none matches.
pub fn find_match(store: &OptimizationStore, stream: &Stream) -> (r: Option<OptimizationId>)
    requires
        store.well_formed(),
        stream@.len() > 0,
    ensures
        r is None <==> forall|q: int|
            0 <= q < candidates(*store, stream@).len() ==> !matches_prefix(
                #[trigger] store.defs()[candidates(*store, stream@)[q] as int],
                stream@,
            ),
        r matches Some(id) ==> exists|pos: int|
            is_best_match(*store, stream@, pos) && candidates(*store, stream@)[pos] == id,
{
    let c = find_candidates(store, stream);
    let ghost d = store.defs();
    let mut best: Option<(OptimizationId, usize)> = None;
    let ghost mut best_pos: int = 0;
    let mut j: usize = 0;
    while j < c.len()
        invariant
            store.well_formed(),
            d == store.defs(),
            c@ == candidates(*store, stream@),
            forall|q: int| 0 <= q < c@.len() ==> #[trigger] c@[q] < d.len(),
            j <= c.len(),
            match best {
                None => forall|q: int|
                    0 <= q < j ==> !matches_prefix(#[trigger] d[c@[q] as int], stream@),
                Some((id, len)) => {
                    &&& 0 <= best_pos < j
                    &&& c@[best_pos] == id
                    &&& len == d[id as int].len()
                    &&& matches_prefix(d[id as int], stream@)
                    &&& forall|q: int|
                        0 <= q < j && matches_prefix(#[trigger] d[c@[q] as int], stream@) ==> {
                            &&& d[c@[q] as int].len() <= len
                            &&& q < best_pos ==> d[c@[q] as int].len() < len
                        }
                },
            },
        decreases c.len() - j,
    {
        let id = c[j];
        let def = store.lookup(id);
        if prefix_matches(def, stream) {
            let better = match best {
                None => true,
                Some((_, len)) => def.len() > len,
            };
            if better {
                best = Some((id, def.len()));
                proof {
                    best_pos = j as int;
                }
            }
        }
        j = j + 1;
    }
    match best {
        None => None,
        Some((id, _)) => {
            assert(is_best_match(*store, stream@, best_pos));
            Some(id)
        },
    }
}

/// Whether some candidate could still match once more operations arrive.
pub fn should_wait(store: &OptimizationStore, stream: &Stream) -> (r: bool)
    requires
        store.well_formed(),
        stream@.len() > 0,
    ensures
        r == waits(*store, stream@),
{
    let c = find_candidates(store, stream);
    let mut j: usize = 0;
    while j < c.len()
        invariant
            c@ == candidates(*store, stream@),
            forall|q: int| 0 <= q < c@.len() ==> #[trigger] c@[q] < store.defs().len(),
            j <= c.len(),
            forall|q: int|
                0 <= q < j ==> !may_grow_into(#[trigger] store.defs()[c@[q] as int], stream@),
        decreases c.len() - j,
    {
        if prefix_of(store.lookup(c[j]), stream) {
            return true;
        }
        j = j + 1;
    }
    false
}

/// What a sequence of dispatches asks the backend to compute, in relative form:
/// each fused dispatch read as its optimization's defining sequence.
pub open spec fn expand_defs(log: Seq<Dispatch>, defs: Seq<Seq<OpsModel>>) -> Seq<OpsModel>
    decreases log.len(),
{
    if log.len() == 0 {
        seq![]
    } else {
        expand_defs(log.drop_last(), defs) + match log.last() {
            Dispatch::Raw(op) => seq![relative_of(op)],
            Dispatch::Fused(id, _) => defs[id as int],
        }
    }
}

proof fn lemma_expand_concat(a: Seq<Dispatch>, b: Seq<Dispatch>)
    ensures
        expand(a + b) == expand(a) + expand(b),
    decreases b.len(),
{
    if b.len() == 0 {
        assert(a + b =~= a);
        assert(expand(a) + expand(b) =~= expand(a));
    } else {
        assert((a + b).drop_last() =~= a + b.drop_last());
        lemma_expand_concat(a, b.drop_last());
        assert(expand(a + b) =~= expand(a) + expand(b));
    }
}

proof fn lemma_relative_expand(log: Seq<Dispatch>, defs: Seq<Seq<OpsModel>>)
    requires
        faithful(log, defs),
    ensures
        relative_seq(expand(log)) == expand_defs(log, defs),
    decreases log.len(),
{
    if log.len() == 0 {
        assert(relative_seq(expand(log)) =~= seq![]);
    } else {
        let init = log.drop_last();
        assert forall|k: int| 0 <= k < init.len() implies match #[trigger] init[k] {
            Dispatch::Fused(id, ops) => id < defs.len() && relative_seq(ops) == defs[id as int],
            Dispatch::Raw(_) => true,
        } by {
            assert(init[k] == log[k]);
        }
        lemma_relative_expand(init, defs);
        let last = log[log.len() - 1];
        assert(relative_seq(expand(init) + dispatch_ops(last)) =~= relative_seq(expand(init))
            + relative_seq(dispatch_ops(last)));
        match last {
            Dispatch::Raw(op) => {
                assert(relative_seq(seq![op]) =~= seq![relative_of(op)]);
            },
            Dispatch::Fused(id, ops) => {},
        }
    }
}

/// A run of the processor asks the backend for the operations it took from
/// the stream and for nothing else, in their order: read in relative form, with
/// each fused optimization read as its defining sequence, the run's dispatches
/// are the operations it consumed. A `Sync` run consumes the whole stream, so
/// where each fused optimization computes what its defining sequence computes,
/// the outputs are those of executing the stream one operation at a time.
pub proof fn lemma_run_replays_stream(
    before: Seq<Dispatch>,
    after: Seq<Dispatch>,
    consumed: Seq<OpsModel>,
    defs: Seq<Seq<OpsModel>>,
)
    requires
        after.len() >= before.len(),
        after.subrange(0, before.len() as int) == before,
        expand(after) == expand(before) + consumed,
        faithful(after.skip(before.len() as int), defs),
    ensures
        relative_seq(consumed) == expand_defs(after.skip(before.len() as int), defs),
{
    let tail = after.skip(before.len() as int);
    assert(after =~= before + tail);
    lemma_expand_concat(before, tail);
    let x = expand(before);
    assert((x + expand(tail)).len() == (x + consumed).len());
    assert forall|k: int| 0 <= k < consumed.len() implies expand(tail)[k] == consumed[k] by {
        assert((x + expand(tail))[x.len() + k] == (x + consumed)[x.len() + k]);
    }
    assert(expand(tail) =~= consumed);
    lemma_relative_expand(tail, defs);
}

proof fn lemma_expand_push(log: Seq<Dispatch>, d: Dispatch)
    ensures
        expand(log.push(d)) == expand(log) + dispatch_ops(d),
{
    assert(log.push(d).drop_last() =~= log);
}

/// Some candidate matches the head of `ops`.
pub open spec fn has_match(store: OptimizationStore, ops: Seq<OpsModel>) -> bool {
    exists|pos: int| is_best_match(store, ops, pos)
}

/// The request the processor makes for the stream `ops`: the best matching
/// optimization bound to the operations it replaces, or else the head
/// operation on its own.
pub open spec fn step(store: OptimizationStore, ops: Seq<OpsModel>) -> Dispatch {
    if has_match(store, ops) {
        let pos = choose|pos: int| is_best_match(store, ops, pos);
        let id = candidates(store, ops)[pos];
        Dispatch::Fused(id, ops.take(store.defs()[id as int].len() as int))
    } else {
        Dispatch::Raw(ops[0])
    }
}

/// Each of the dispatches `ds` is `step` applied to what remained of `ops`
/// after the dispatches before it.
pub open spec fn follows(store: OptimizationStore, ops: Seq<OpsModel>, ds: Seq<Dispatch>) -> bool
    decreases ds.len(),
{
    if ds.len() == 0 {
        true
    } else {
        let rest = ops.skip(expand(ds.drop_last()).len() as int);
        &&& follows(store, ops, ds.drop_last())
        &&& rest.len() > 0
        &&& ds.last() == step(store, rest)
    }
}

/// At most one candidate position is the best match.
pub proof fn lemma_best_match_unique(store: OptimizationStore, ops: Seq<OpsModel>, p: int, q: int)
    requires
        is_best_match(store, ops, p),
        is_best_match(store, ops, q),
    ensures
        p == q,
{
    let c = candidates(store, ops);
    let d = store.defs();
    assert(d[c[q] as int].len() <= d[c[p] as int].len());
    assert(d[c[p] as int].len() <= d[c[q] as int].len());
}

/// Runs a stream against the registered optimizations, and records what it
/// asked of the backend.
pub struct Processor {
    log: Ghost<Seq<Dispatch>>,
    failed: Ghost<Option<Dispatch>>,
}

impl Processor {
    /// Every request the backend carried out so far, in order.
    pub closed spec fn dispatched(&self) -> Seq<Dispatch> {
        self.log@
    }

    /// The request the backend refused in the last run, if it refused one.
    pub closed spec fn failure(&self) -> Option<Dispatch> {
        self.failed@
    }

    pub fn new() -> (r: Self)
        ensures
            r.dispatched() == Seq::<Dispatch>::empty(),
            r.failure() == Option::<Dispatch>::None,
    {
        Processor { log: Ghost(Seq::empty()), failed: Ghost(None) }
    }

    /// Execute the stream's operations from its head: each time, the longest
    /// registered optimization that matches (the earliest registered among
    /// those as long), or else the head operation on its own. `Sync` runs until
    /// the stream is empty. `Lazy` stops as soon as some optimization could
    /// still match once more operations arrive, and after executing one
    /// operation on its own.
    ///
    /// A failure of the backend is returned at once and nothing runs after it;
    /// the operations it was asked to execute stay in the stream.
    pub fn process<B: FusionBackend>(
        &mut self,
        stream: &mut Stream,
        store: &OptimizationStore,
        backend: &mut Recorded<B>,
        mode: ExecutionMode,
    ) -> (r: Result<(), FusionError>)
        requires
            store.well_formed(),
        ensures
            ({
                let n = old(stream)@.len() - final(stream)@.len();
                &&& 0 <= n <= old(stream)@.len()
                &&& final(stream)@ == old(stream)@.skip(n)
                &&& expand(final(self).dispatched()) == expand(old(self).dispatched()) + old(stream)@.take(n)
            }),
            ({
                let before = old(self).dispatched();
                let after = final(self).dispatched();
                let new = after.skip(before.len() as int);
                &&& after.len() >= before.len()
                &&& after.subrange(0, before.len() as int) == before
                &&& faithful(new, store.defs())
                &&& follows(*store, old(stream)@, new)
                &&& mode == ExecutionMode::Lazy ==> forall|k: int| 0 <= k < new.len() - 1 ==> #[trigger] new[k] is Fused
                &&& r is Ok && mode == ExecutionMode::Lazy && final(stream)@.len() > 0 ==> waits(*store, final(stream)@) || (new.len() > 0 && new.last() is Raw)
            }),
            old(stream)@.len() == 0 || (mode == ExecutionMode::Lazy && waits(*store, old(stream)@)) ==> {
                &&& r is Ok
                &&& final(stream)@ == old(stream)@
                &&& final(self).dispatched() == old(self).dispatched()
            },
            r is Ok <==> final(self).failure() is None,
            final(backend).requests() == old(backend).requests() + answered(final(self).dispatched().skip(old(self).dispatched().len() as int)) + match final(self).failure() {
                Some(d) => seq![(d, r)],
                None => Seq::empty(),
            },
            r is Err ==> final(stream)@.len() > 0 && final(self).failure() == Some(step(*store, final(stream)@)),
            r is Ok && mode == ExecutionMode::Sync ==> final(stream)@.len() == 0,
    {
        let ghost start = old(stream)@;
        let ghost log0 = self.log@;
        proof {
            self.failed@ = None;
            assert(self.log@.skip(log0.len() as int) =~= Seq::<Dispatch>::empty());
            assert(old(backend).requests() + answered(Seq::<Dispatch>::empty()) =~= old(backend).requests());
            assert(start.take(0) =~= Seq::<OpsModel>::empty());
            assert(start.skip(0) =~= start);
        }
        loop
            invariant
                store.well_formed(),
                start == old(stream)@,
                log0 == old(self).dispatched(),
                self.failed@ is None,
                backend.requests() == old(backend).requests() + answered(self.log@.skip(log0.len() as int)),
                stream@.len() == start.len() ==> stream@ == start && self.log@ == log0,
                mode == ExecutionMode::Lazy && start.len() > 0 && waits(*store, start) ==> stream@.len() == start.len(),
                stream@.len() <= start.len(),
                stream@ == start.skip(start.len() - stream@.len()),
                expand(self.log@) == expand(log0) + start.take(start.len() - stream@.len()),
                expand(self.log@.skip(log0.len() as int)) == start.take(start.len() - stream@.len()),
                self.log@.len() >= log0.len(),
                self.log@.subrange(0, log0.len() as int) == log0,
                faithful(self.log@.skip(log0.len() as int), store.defs()),
                follows(*store, start, self.log@.skip(log0.len() as int)),
                mode == ExecutionMode::Lazy ==> forall|k: int| 0 <= k < self.log@.skip(log0.len() as int).len() ==> #[trigger] self.log@.skip(log0.len() as int)[k] is Fused,
            decreases stream@.len(),
        {
            if stream.is_empty() {
                return Ok(());
            }
            if mode == ExecutionMode::Lazy && should_wait(store, stream) {
                return Ok(());
            }
            let ghost before = stream@;
            let ghost consumed = start.len() - stream@.len();
            let ghost tail = self.log@.skip(log0.len() as int);
            proof {
                assert(start.skip(expand(tail).len() as int) == before);
            }
            match find_match(store, stream) {
                Some(id) => {
                    proof {
                        let pos = choose|pos: int|
                            is_best_match(*store, stream@, pos) && candidates(*store, stream@)[pos]
                                == id;
                        store.lemma_candidate_valid(relative_of(stream@[0]), pos);
                        let p2 = choose|p: int| is_best_match(*store, stream@, p);
                        lemma_best_match_unique(*store, stream@, pos, p2);
                    }
                    let len = store.lookup(id).len();
                    let segment = stream.head(len);
                    let ghost d = Dispatch::Fused(id, ops_view(segment@));
                    assert(d == step(*store, before));
                    let ghost requested = backend.requests();
                    let answer = backend.execute_fused(id, segment.as_slice());
                    match settle(stream, len, answer) {
                        Ok(()) => {},
                        Err(e) => {
                            proof {
                                self.failed@ = Some(d);
                                assert(backend.requests() =~= old(backend).requests() + answered(tail) + seq![(d, Err::<(), FusionError>(e))]);
                            }
                            return Err(e);
                        },
                    }
                    proof {
                        assert(answer is Ok);
                        assert(answer->Ok_0 == ());
                        assert(answer == Ok::<(), FusionError>(()));
                        assert(backend.requests() == old(backend).requests() + answered(tail) + seq![(d, Ok::<(), FusionError>(()))]);
                        assert(answered(tail.push(d)) =~= answered(tail).push((d, Ok::<(), FusionError>(()))));
                        assert(old(backend).requests() + answered(tail) + seq![(d, Ok::<(), FusionError>(()))] =~= old(backend).requests() + answered(tail.push(d)));
                    }
                    proof {
                        assert(matches_prefix(store.defs()[id as int], before));
                        assert(relative_seq(ops_view(segment@)) =~= store.defs()[id as int]);
                        lemma_expand_push(self.log@, d);
                        lemma_expand_push(tail, d);
                        assert(seq![d][0] == d);
                        assert(faithful(seq![d], store.defs()));
                        lemma_faithful_push(tail, d, store.defs());
                        self.log@ = self.log@.push(d);
                        assert(self.log@.skip(log0.len() as int) =~= tail.push(d));
                        assert(answered(tail.push(d)) =~= answered(tail).push((d, Ok::<(), FusionError>(()))));
                        assert(backend.requests() =~= old(backend).requests() + answered(self.log@.skip(log0.len() as int)));
                        assert(tail.push(d).drop_last() =~= tail);
                        assert(self.log@.subrange(0, log0.len() as int) =~= log0);
                        assert(start.take(consumed + len) =~= start.take(consumed) + before.take(
                            len as int,
                        ));
                        assert(stream@ =~= start.skip(start.len() - stream@.len()));
                        if mode == ExecutionMode::Lazy {
                            assert forall|k: int| 0 <= k < tail.push(d).len() implies #[trigger] tail.push(d)[k] is Fused by {
                                if k < tail.len() {
                                    assert(tail.push(d)[k] == tail[k]);
                                }
                            }
                        }
                    }
                },
                None => {
                    proof {
                        if has_match(*store, before) {
                            let p = choose|p: int| is_best_match(*store, before, p);
                            assert(matches_prefix(store.defs()[candidates(*store, before)[p] as int], before));
                        }
                    }
                    let ghost d = Dispatch::Raw(stream@[0]);
                    assert(d == step(*store, before));
                    let answer = backend.execute_raw(stream.get(0));
                    match settle(stream, 1, answer) {
                        Ok(()) => {},
                        Err(e) => {
                            proof {
                                self.failed@ = Some(d);
                                assert(backend.requests() =~= old(backend).requests() + answered(tail) + seq![(d, Err::<(), FusionError>(e))]);
                            }
                            return Err(e);
                        },
                    }
                    proof {
                        assert(answer is Ok);
                        assert(answer->Ok_0 == ());
                        assert(answer == Ok::<(), FusionError>(()));
                        assert(backend.requests() == old(backend).requests() + answered(tail) + seq![(d, Ok::<(), FusionError>(()))]);
                        assert(answered(tail.push(d)) =~= answered(tail).push((d, Ok::<(), FusionError>(()))));
                        assert(old(backend).requests() + answered(tail) + seq![(d, Ok::<(), FusionError>(()))] =~= old(backend).requests() + answered(tail.push(d)));
                    }
                    proof {
                        lemma_expand_push(self.log@, d);
                        lemma_expand_push(tail, d);
                        assert(seq![d][0] == d);
                        assert(faithful(seq![d], store.defs()));
                        lemma_faithful_push(tail, d, store.defs());
                        self.log@ = self.log@.push(d);
                        assert(self.log@.skip(log0.len() as int) =~= tail.push(d));
                        assert(answered(tail.push(d)) =~= answered(tail).push((d, Ok::<(), FusionError>(()))));
                        assert(backend.requests() =~= old(backend).requests() + answered(self.log@.skip(log0.len() as int)));
                        assert(tail.push(d).drop_last() =~= tail);
                        assert(self.log@.subrange(0, log0.len() as int) =~= log0);
                        assert(start.take(consumed + 1) =~= start.take(consumed) + seq![before[0]]);
                        assert(stream@ =~= start.skip(start.len() - stream@.len()));
                    }
                    if mode == ExecutionMode::Lazy {
                        proof {
                            let new = self.log@.skip(log0.len() as int);
                            assert forall|k: int| 0 <= k < new.len() - 1 implies #[trigger] new[k] is Fused by {
                                assert(new[k] == tail[k]);
                            }
                        }
                        return Ok(());
                    }
                },
            }
        }
    }
}

/// Two faithful runs of dispatches make a faithful run.
pub proof fn lemma_faithful_concat(a: Seq<Dispatch>, b: Seq<Dispatch>, defs: Seq<Seq<OpsModel>>)
    requires
        faithful(a, defs),
        faithful(b, defs),
    ensures
        faithful(a + b, defs),
{
    assert forall|k: int| 0 <= k < (a + b).len() implies match #[trigger] (a + b)[k] {
        Dispatch::Fused(id, ops) => id < defs.len() && relative_seq(ops) == defs[id as int],
        Dispatch::Raw(_) => true,
    } by {
        if k < a.len() {
            assert((a + b)[k] == a[k]);
        } else {
            assert((a + b)[k] == b[k - a.len()]);
        }
    }
}

proof fn lemma_faithful_push(log: Seq<Dispatch>, d: Dispatch, defs: Seq<Seq<OpsModel>>)
    requires
        faithful(log, defs),
        faithful(seq![d], defs),
    ensures
        faithful(log.push(d), defs),
{
    assert forall|k: int| 0 <= k < log.push(d).len() implies match #[trigger] log.push(d)[k] {
        Dispatch::Fused(id, ops) => id < defs.len() && relative_seq(ops) == defs[id as int],
        Dispatch::Raw(_) => true,
    } by {
        if k < log.len() {
            assert(log.push(d)[k] == log[k]);
        } else {
            assert(log.push(d)[k] == seq![d][0]);
        }
    }
}

} // verus!

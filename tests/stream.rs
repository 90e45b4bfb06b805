use burn_fusion::description::{
    BinaryOpsDescription, NumericOpsDescription, ScalarOpsDescription, TensorDescription,
    TensorId, TensorOpsDescription, TensorStatus, UnaryOpsDescription,
};
use burn_fusion::error::FusionError;
use burn_fusion::index::SearchQuery;
use burn_fusion::multi::MultiStream;
use burn_fusion::backend::{FusionBackend, Recorded};
use burn_fusion::processor::{ExecutionMode, Processor};
use burn_fusion::store::OptimizationStore;
use burn_fusion::stream::Stream;
use std::collections::HashMap;

fn t(id: u64, status: TensorStatus) -> TensorDescription {
    TensorDescription {
        id: TensorId::new(id),
        shape: vec![4],
        status,
    }
}

fn bin(lhs: u64, rhs: u64, out: u64) -> BinaryOpsDescription {
    BinaryOpsDescription {
        lhs: t(lhs, TensorStatus::ReadOnly),
        rhs: t(rhs, TensorStatus::ReadOnly),
        out: t(out, TensorStatus::NotInit),
    }
}

fn add(lhs: u64, rhs: u64, out: u64) -> TensorOpsDescription {
    TensorOpsDescription::NumericOpsFloat(NumericOpsDescription::Add(bin(lhs, rhs, out)))
}

fn mul(lhs: u64, rhs: u64, out: u64) -> TensorOpsDescription {
    TensorOpsDescription::NumericOpsFloat(NumericOpsDescription::Mul(bin(lhs, rhs, out)))
}

fn add_scalar(lhs: u64, value: f32, out: u64) -> TensorOpsDescription {
    TensorOpsDescription::NumericOpsFloat(NumericOpsDescription::AddScalar(ScalarOpsDescription {
        lhs: t(lhs, TensorStatus::ReadOnly),
        rhs: value.to_bits(),
        out: t(out, TensorStatus::NotInit),
    }))
}

fn abs(input: u64, out: u64) -> TensorOpsDescription {
    TensorOpsDescription::NumericOpsFloat(NumericOpsDescription::Abs(UnaryOpsDescription {
        input: t(input, TensorStatus::ReadOnly),
        out: t(out, TensorStatus::NotInit),
    }))
}

/// Counts what it is asked to do; evaluates each tensor as one number.
#[derive(Default)]
struct Recorder {
    raw: usize,
    fused: Vec<(usize, usize)>,
    values: HashMap<u64, f32>,
    refuse_raw: bool,
}

impl Recorder {
    fn with_inputs() -> Self {
        let mut r = Recorder::default();
        r.values.insert(0, 3.0);
        r.values.insert(1, -7.0);
        r
    }

    fn eval(&mut self, op: &TensorOpsDescription) {
        let numeric = match op {
            TensorOpsDescription::NumericOpsFloat(n) | TensorOpsDescription::NumericOpsInt(n) => n,
        };
        let get = |v: &HashMap<u64, f32>, d: &TensorDescription| v[&d.id.value];
        let (out, value) = match numeric {
            NumericOpsDescription::Add(d) => (d.out.id.value, get(&self.values, &d.lhs) + get(&self.values, &d.rhs)),
            NumericOpsDescription::Sub(d) => (d.out.id.value, get(&self.values, &d.lhs) - get(&self.values, &d.rhs)),
            NumericOpsDescription::Mul(d) => (d.out.id.value, get(&self.values, &d.lhs) * get(&self.values, &d.rhs)),
            NumericOpsDescription::Div(d) => (d.out.id.value, get(&self.values, &d.lhs) / get(&self.values, &d.rhs)),
            NumericOpsDescription::AddScalar(d) => (d.out.id.value, get(&self.values, &d.lhs) + f32::from_bits(d.rhs)),
            NumericOpsDescription::SubScalar(d) => (d.out.id.value, get(&self.values, &d.lhs) - f32::from_bits(d.rhs)),
            NumericOpsDescription::MulScalar(d) => (d.out.id.value, get(&self.values, &d.lhs) * f32::from_bits(d.rhs)),
            NumericOpsDescription::DivScalar(d) => (d.out.id.value, get(&self.values, &d.lhs) / f32::from_bits(d.rhs)),
            NumericOpsDescription::Abs(d) => (d.out.id.value, get(&self.values, &d.input).abs()),
            NumericOpsDescription::Sum(d) => (d.out.id.value, get(&self.values, &d.input) * 4.0),
        };
        self.values.insert(out, value);
    }
}

impl FusionBackend for Recorder {
    fn execute_raw(&mut self, op: &TensorOpsDescription) -> Result<(), FusionError> {
        if self.refuse_raw {
            return Err(FusionError::UnsupportedOperation);
        }
        self.raw += 1;
        self.eval(op);
        Ok(())
    }

    fn execute_fused(&mut self, id: usize, ops: &[TensorOpsDescription]) -> Result<(), FusionError> {
        self.fused.push((id, ops.len()));
        for op in ops {
            self.eval(op);
        }
        Ok(())
    }
}

#[test]
fn end_to_end_single_fused_execution() {
    let mut store = OptimizationStore::new();
    assert_eq!(store.register(&[add(0, 1, 2)]), Ok(0));
    let found = store
        .index()
        .find(SearchQuery::OptimizationsStartingWith(&add(0, 1, 2)));
    assert_eq!(found, vec![0]);

    let mut streams = MultiStream::new(vec![vec![add(0, 1, 2)]]);
    let mut backend = Recorded::new(Recorder::with_inputs());
    streams.register(add(0, 1, 2), &mut backend).unwrap();
    streams.drain(&mut backend).unwrap();
    assert_eq!(backend.backend().fused, vec![(0, 1)]);
    assert_eq!(backend.backend().raw, 0);
    assert_eq!(backend.backend().values[&2], -4.0);
}

fn program() -> Vec<TensorOpsDescription> {
    vec![
        add(0, 1, 2),
        mul(2, 1, 3),
        add_scalar(3, 5.0, 4),
        abs(4, 5),
        add(5, 0, 6),
        mul(6, 1, 7),
    ]
}

fn run(catalog: Vec<Vec<TensorOpsDescription>>) -> Recorder {
    let mut streams = MultiStream::new(catalog);
    let mut backend = Recorded::new(Recorder::with_inputs());
    for op in program() {
        streams.register(op, &mut backend).unwrap();
    }
    streams.drain(&mut backend).unwrap();
    backend.into_backend()
}

#[test]
fn sync_with_fusion_matches_raw_execution() {
    let unfused = run(vec![]);
    assert_eq!(unfused.raw, 6);
    assert!(unfused.fused.is_empty());

    let fused = run(vec![vec![add(0, 1, 2), mul(2, 1, 3)], vec![add(5, 0, 6), mul(6, 1, 7)]]);
    assert_eq!(fused.fused, vec![(0, 2), (1, 2)]);
    assert_eq!(fused.raw, 2);
    assert_eq!(fused.values, unfused.values);
    assert_eq!(fused.values[&7], -252.0);
}

#[test]
fn lazy_waits_while_a_longer_sequence_may_match() {
    let mut streams = MultiStream::new(vec![vec![add(0, 1, 2), mul(2, 1, 3)]]);
    let mut backend = Recorded::new(Recorder::with_inputs());
    streams.register(add(0, 1, 2), &mut backend).unwrap();
    assert_eq!(backend.backend().raw, 0);
    assert!(backend.backend().fused.is_empty());
    streams.register(mul(2, 1, 3), &mut backend).unwrap();
    assert_eq!(backend.backend().fused, vec![(0, 2)]);
    assert_eq!(backend.backend().raw, 0);
}

#[test]
fn lazy_executes_unmatched_operation_on_its_own() {
    let mut streams = MultiStream::new(vec![vec![add(0, 1, 2), mul(2, 1, 3)]]);
    let mut backend = Recorded::new(Recorder::with_inputs());
    streams.register(abs(0, 9), &mut backend).unwrap();
    assert_eq!(backend.backend().raw, 1);
    streams.drain(&mut backend).unwrap();
    assert_eq!(backend.backend().raw, 1);
    assert_eq!(backend.backend().values[&9], 3.0);
}

#[test]
fn longest_match_wins_and_ties_go_to_earliest() {
    let catalog = vec![
        vec![add(0, 1, 2)],
        vec![add(0, 1, 2), mul(2, 1, 3)],
        vec![add(0, 1, 2), mul(2, 1, 3)],
    ];
    let mut store = OptimizationStore::new();
    for def in &catalog {
        store.register(def).unwrap();
    }
    let mut stream = Stream::new();
    stream.add(add(0, 1, 2));
    stream.add(mul(2, 1, 3));
    stream.add(abs(3, 4));
    let mut processor = Processor::new();
    let mut backend = Recorded::new(Recorder::with_inputs());
    processor
        .process(&mut stream, &store, &mut backend, ExecutionMode::Sync)
        .unwrap();
    assert!(stream.is_empty());
    assert_eq!(backend.backend().fused, vec![(1, 2)]);
    assert_eq!(backend.backend().raw, 1);
}

#[test]
fn scalar_constants_do_not_prevent_a_match() {
    let mut streams = MultiStream::new(vec![vec![add_scalar(0, 1.0, 2)]]);
    let mut backend = Recorded::new(Recorder::with_inputs());
    streams.register(add_scalar(0, 5.0, 2), &mut backend).unwrap();
    assert_eq!(backend.backend().fused, vec![(0, 1)]);
    assert_eq!(backend.backend().values[&2], 8.0);
}

#[test]
fn unsupported_operation_is_propagated() {
    let mut streams = MultiStream::new(vec![]);
    let mut inner = Recorder::with_inputs();
    inner.refuse_raw = true;
    let mut backend = Recorded::new(inner);
    assert_eq!(
        streams.register(abs(0, 1), &mut backend),
        Err(FusionError::UnsupportedOperation)
    );
    assert_eq!(
        streams.drain(&mut backend),
        Err(FusionError::UnsupportedOperation)
    );
    let mut inner = backend.into_backend();
    inner.refuse_raw = false;
    let mut backend = Recorded::new(inner);
    streams.drain(&mut backend).unwrap();
    assert_eq!(backend.backend().raw, 1);
}

#[test]
fn store_refuses_empty_sequence() {
    let mut store = OptimizationStore::new();
    assert_eq!(store.register(&[]), Err(FusionError::InvariantViolation));
    assert_eq!(store.len(), 0);
    assert_eq!(store.register(&[abs(0, 1), abs(1, 2)]), Ok(0));
    assert_eq!(store.register(&[abs(0, 1)]), Ok(1));
    assert_eq!(store.lookup(0).len(), 2);
    assert_eq!(
        store.index().find(SearchQuery::OptimizationsStartingWith(&abs(0, 1))),
        vec![0, 1]
    );
}

#[test]
fn stream_keeps_order_and_consumes_from_head() {
    let mut stream = Stream::new();
    stream.add(add(0, 1, 2));
    stream.add(mul(2, 1, 3));
    stream.add(abs(3, 4));
    assert_eq!(stream.len(), 3);
    let head = stream.head(2);
    assert_eq!(head, vec![add(0, 1, 2), mul(2, 1, 3)]);
    stream.consume(2);
    assert_eq!(stream.len(), 1);
    assert_eq!(stream.get(0), &abs(3, 4));
}

#[test]
fn sync_executes_a_partial_match_operation_by_operation() {
    let mut streams = MultiStream::new(vec![vec![add(0, 1, 2), mul(2, 1, 3)]]);
    let mut backend = Recorded::new(Recorder::with_inputs());
    streams.register(add(0, 1, 2), &mut backend).unwrap();
    assert_eq!(backend.backend().raw, 0);
    streams.drain(&mut backend).unwrap();
    assert_eq!(backend.backend().raw, 1);
    assert!(backend.backend().fused.is_empty());
    assert_eq!(backend.backend().values[&2], -4.0);
}

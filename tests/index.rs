use burn_fusion::description::{
    BinaryOpsDescription, NumericOpsDescription, ScalarOpsDescription, TensorDescription,
    TensorId, TensorOpsDescription, TensorStatus,
};
use burn_fusion::device::CandleDevice;
use burn_fusion::error::FusionError;
use burn_fusion::index::{InsertQuery, OptimizationIndex, SearchQuery};

fn tensor(id: u64, status: TensorStatus) -> TensorDescription {
    TensorDescription {
        id: TensorId::new(id),
        shape: vec![32, 32],
        status,
    }
}

fn binary() -> BinaryOpsDescription {
    BinaryOpsDescription {
        lhs: tensor(0, TensorStatus::ReadOnly),
        rhs: tensor(1, TensorStatus::ReadOnly),
        out: tensor(2, TensorStatus::NotInit),
    }
}

fn ops_1() -> TensorOpsDescription {
    TensorOpsDescription::NumericOpsFloat(NumericOpsDescription::Add(binary()))
}

fn ops_2() -> TensorOpsDescription {
    TensorOpsDescription::NumericOpsFloat(NumericOpsDescription::AddScalar(ScalarOpsDescription {
        lhs: tensor(0, TensorStatus::ReadOnly),
        rhs: 5.0f32.to_bits(),
        out: tensor(2, TensorStatus::NotInit),
    }))
}

fn ops_3() -> TensorOpsDescription {
    TensorOpsDescription::NumericOpsFloat(NumericOpsDescription::Sub(binary()))
}

#[test]
fn should_find_optimization_id_based_on_tensor_ops() {
    let mut index = OptimizationIndex::default();
    let stream_1 = [ops_1()];
    let optimization_id_1 = 0;

    index
        .insert(InsertQuery::NewOptimization {
            stream: &stream_1,
            id: optimization_id_1,
        })
        .unwrap();

    let found = index.find(SearchQuery::OptimizationsStartingWith(&stream_1[0]));

    assert_eq!(found, vec![optimization_id_1]);
}

#[test]
fn should_support_multiple_optimization_ids_with_same_starting_ops() {
    let mut index = OptimizationIndex::default();
    let stream_1 = [ops_1(), ops_2(), ops_1()];
    let stream_2 = [ops_1(), ops_1(), ops_2()];
    let optimization_id_1 = 0;
    let optimization_id_2 = 1;

    index
        .insert(InsertQuery::NewOptimization {
            stream: &stream_1,
            id: optimization_id_1,
        })
        .unwrap();
    index
        .insert(InsertQuery::NewOptimization {
            stream: &stream_2,
            id: optimization_id_2,
        })
        .unwrap();

    let found = index.find(SearchQuery::OptimizationsStartingWith(&stream_1[0]));

    assert_eq!(found, vec![optimization_id_1, optimization_id_2]);
}

#[test]
fn should_only_find_optimization_with_correct_starting_ops() {
    let mut index = OptimizationIndex::default();
    let stream_1 = [ops_1(), ops_1()];
    let stream_2 = [ops_2(), ops_1()];
    let optimization_id_1 = 0;
    let optimization_id_2 = 1;

    index
        .insert(InsertQuery::NewOptimization {
            stream: &stream_1,
            id: optimization_id_1,
        })
        .unwrap();
    index
        .insert(InsertQuery::NewOptimization {
            stream: &stream_2,
            id: optimization_id_2,
        })
        .unwrap();

    let found = index.find(SearchQuery::OptimizationsStartingWith(&stream_1[0]));

    assert_eq!(found, vec![optimization_id_1]);
}

#[test]
fn should_handle_hash_collisions() {
    let mut index = OptimizationIndex::default();
    let stream_1 = [ops_1(), ops_1()];
    let stream_2 = [ops_3(), ops_1()];
    let optimization_id_1 = 0;
    let optimization_id_2 = 1;

    let stream_1_key = index.stream_key(&stream_1[0]);
    let stream_2_key = index.stream_key(&stream_2[0]);

    assert_eq!(
        stream_1_key, stream_2_key,
        "Ops 1 and Ops 3 have the same hash"
    );
    assert_ne!(stream_1[0], stream_2[0], "Ops 1 and Ops 3 are different.");

    index
        .insert(InsertQuery::NewOptimization {
            stream: &stream_1,
            id: optimization_id_1,
        })
        .unwrap();
    index
        .insert(InsertQuery::NewOptimization {
            stream: &stream_2,
            id: optimization_id_2,
        })
        .unwrap();

    let found = index.find(SearchQuery::OptimizationsStartingWith(&stream_1[0]));

    assert_eq!(found, vec![optimization_id_1]);
}

#[test]
fn collision_each_start_finds_only_its_own_id() {
    let mut index = OptimizationIndex::default();
    let add = [ops_1()];
    let sub = [ops_3()];
    index
        .insert(InsertQuery::NewOptimization { stream: &add, id: 7 })
        .unwrap();
    index
        .insert(InsertQuery::NewOptimization { stream: &sub, id: 9 })
        .unwrap();
    assert_eq!(index.find(SearchQuery::OptimizationsStartingWith(&ops_1())), vec![7]);
    assert_eq!(index.find(SearchQuery::OptimizationsStartingWith(&ops_3())), vec![9]);
}

#[test]
fn insert_empty_sequence_is_an_invariant_violation() {
    let mut index = OptimizationIndex::default();
    let empty: [TensorOpsDescription; 0] = [];
    let r = index.insert(InsertQuery::NewOptimization { stream: &empty, id: 0 });
    assert_eq!(r, Err(FusionError::InvariantViolation));
    assert_eq!(
        index.find(SearchQuery::OptimizationsStartingWith(&ops_1())),
        Vec::<usize>::new()
    );
}

#[test]
fn find_on_empty_index_is_empty() {
    let index = OptimizationIndex::default();
    assert!(index
        .find(SearchQuery::OptimizationsStartingWith(&ops_2()))
        .is_empty());
}

#[test]
fn inserted_id_is_found_from_first_operation() {
    let mut index = OptimizationIndex::default();
    index
        .insert(InsertQuery::NewOptimization { stream: &[ops_2()], id: 3 })
        .unwrap();
    index
        .insert(InsertQuery::NewOptimization { stream: &[ops_2(), ops_1(), ops_3()], id: 11 })
        .unwrap();
    let found = index.find(SearchQuery::OptimizationsStartingWith(&ops_2()));
    assert!(found.contains(&11));
    assert_eq!(found, vec![3, 11]);
}

#[test]
fn repeated_find_returns_identical_results() {
    let mut index = OptimizationIndex::default();
    index
        .insert(InsertQuery::NewOptimization { stream: &[ops_1(), ops_2()], id: 0 })
        .unwrap();
    index
        .insert(InsertQuery::NewOptimization { stream: &[ops_3()], id: 1 })
        .unwrap();
    let a = index.find(SearchQuery::OptimizationsStartingWith(&ops_1()));
    let b = index.find(SearchQuery::OptimizationsStartingWith(&ops_1()));
    assert_eq!(a, b);
    assert_eq!(a, vec![0]);
}

#[test]
fn hash_depends_on_tensors() {
    let index = OptimizationIndex::default();
    let mut other = binary();
    other.out.shape = vec![32, 16];
    let changed = TensorOpsDescription::NumericOpsFloat(NumericOpsDescription::Add(other));
    assert_ne!(index.stream_key(&ops_1()), index.stream_key(&changed));
    let int_add = TensorOpsDescription::NumericOpsInt(NumericOpsDescription::Add(binary()));
    assert_ne!(index.stream_key(&ops_1()), index.stream_key(&int_add));
}

#[test]
fn hash_content_layout() {
    let op = TensorOpsDescription::NumericOpsInt(NumericOpsDescription::Abs(
        burn_fusion::description::UnaryOpsDescription {
            input: TensorDescription {
                id: TensorId::new(1),
                shape: vec![3],
                status: TensorStatus::ReadWrite,
            },
            out: TensorDescription {
                id: TensorId::new(258),
                shape: vec![],
                status: TensorStatus::NotInit,
            },
        },
    ));
    let bytes = op.hash_content();
    let mut expected: Vec<u8> = vec![1];
    expected.extend_from_slice(&[1, 0, 0, 0, 0, 0, 0, 0]);
    expected.extend_from_slice(&[1, 0, 0, 0, 0, 0, 0, 0]);
    expected.extend_from_slice(&[3, 0, 0, 0, 0, 0, 0, 0]);
    expected.push(1);
    expected.extend_from_slice(&[2, 1, 0, 0, 0, 0, 0, 0]);
    expected.extend_from_slice(&[0, 0, 0, 0, 0, 0, 0, 0]);
    expected.push(2);
    assert_eq!(bytes, expected);
}

#[test]
fn relative_form_clears_scalar_and_clone_keeps_it() {
    let op = ops_2();
    let copy = op.clone();
    assert_eq!(copy, op);
    let rel = op.to_relative();
    assert_ne!(rel, op);
    match rel {
        TensorOpsDescription::NumericOpsFloat(NumericOpsDescription::AddScalar(d)) => {
            assert_eq!(d.rhs, 0);
            assert_eq!(d.lhs.shape, vec![32, 32]);
        }
        _ => panic!("relative form changed the operation's kind"),
    }
}

#[test]
fn default_device_is_cpu() {
    assert_eq!(CandleDevice::default(), CandleDevice::Cpu);
    assert_ne!(CandleDevice::Cuda(0), CandleDevice::Cpu);
}

#[test]
fn cloned_index_answers_alike() {
    let mut index = OptimizationIndex::default();
    index
        .insert(InsertQuery::NewOptimization { stream: &[ops_1(), ops_2()], id: 4 })
        .unwrap();
    let copy = index.clone();
    index
        .insert(InsertQuery::NewOptimization { stream: &[ops_1()], id: 5 })
        .unwrap();
    assert_eq!(copy.find(SearchQuery::OptimizationsStartingWith(&ops_1())), vec![4]);
    assert_eq!(index.find(SearchQuery::OptimizationsStartingWith(&ops_1())), vec![4, 5]);
}

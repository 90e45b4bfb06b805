//! Descriptions of elementary tensor operations and of the tensors they read and write.
use vstd::prelude::*;

verus! {

/// Identifier of a tensor, unique within a process.
#[derive(Clone, Copy, Debug, PartialEq, Eq, Structural, Hash)]
pub struct TensorId {
    pub value: u64,
}

impl TensorId {
    pub fn new(value: u64) -> (r: Self)
        ensures
            r.value == value,
    {
        TensorId { value }
    }
}

/// Whether a tensor may be read, read and overwritten, or is not materialized yet.
#[derive(Clone, Copy, Debug, PartialEq, Eq, Structural, Hash)]
pub enum TensorStatus {
    ReadOnly,
    ReadWrite,
    NotInit,
}

/// A tensor as an operation sees it: its identifier, its shape and its status.
#[derive(Debug)]
pub struct TensorDescription {
    pub id: TensorId,
    pub shape: Vec<usize>,
    pub status: TensorStatus,
}

/// Mathematical value of a tensor description.
pub struct TensorModel {
    pub id: u64,
    pub shape: Seq<usize>,
    pub status: TensorStatus,
}

impl View for TensorDescription {
    type V = TensorModel;

    open spec fn view(&self) -> TensorModel {
        TensorModel { id: self.id.value, shape: self.shape@, status: self.status }
    }
}

impl Clone for TensorDescription {
    fn clone(&self) -> (r: Self)
        ensures
            r@ == self@,
    {
        let mut shape: Vec<usize> = Vec::new();
        let mut i: usize = 0;
        while i < self.shape.len()
            invariant
                i <= self.shape.len(),
                shape@ == self.shape@.take(i as int),
            decreases self.shape.len() - i,
        {
            shape.push(self.shape[i]);
            i = i + 1;
            assert(shape@ =~= self.shape@.take(i as int));
        }
        assert(shape@ =~= self.shape@);
        TensorDescription { id: self.id, shape, status: self.status }
    }
}

impl TensorDescription {
    /// Field-wise equality of two tensor descriptions.
    pub fn same_as(&self, other: &TensorDescription) -> (r: bool)
        ensures
            r == (self@ == other@),
    {
        if self.id.value != other.id.value || self.status != other.status || self.shape.len()
            != other.shape.len() {
            return false;
        }
        let mut i: usize = 0;
        while i < self.shape.len()
            invariant
                i <= self.shape.len(),
                self.shape.len() == other.shape.len(),
                forall|j: int| 0 <= j < i ==> self.shape@[j] == other.shape@[j],
            decreases self.shape.len() - i,
        {
            if self.shape[i] != other.shape[i] {
                return false;
            }
            i = i + 1;
        }
        assert(self.shape@ =~= other.shape@);
        true
    }
}

/// Operands of an operation with two tensor inputs.
#[derive(Debug)]
pub struct BinaryOpsDescription {
    pub lhs: TensorDescription,
    pub rhs: TensorDescription,
    pub out: TensorDescription,
}

/// Operands of an operation with a tensor and a scalar as inputs.
///
/// The scalar is held as its IEEE-754 single-precision bit pattern.
#[derive(Debug)]
pub struct ScalarOpsDescription {
    pub lhs: TensorDescription,
    pub rhs: u32,
    pub out: TensorDescription,
}

/// Operands of an operation with one tensor input (element-wise or reduction).
#[derive(Debug)]
pub struct UnaryOpsDescription {
    pub input: TensorDescription,
    pub out: TensorDescription,
}

/// Numeric operations, grouped by operand arity.
#[derive(Debug)]
pub enum NumericOpsDescription {
    Add(BinaryOpsDescription),
    AddScalar(ScalarOpsDescription),
    Sub(BinaryOpsDescription),
    SubScalar(ScalarOpsDescription),
    Mul(BinaryOpsDescription),
    MulScalar(ScalarOpsDescription),
    Div(BinaryOpsDescription),
    DivScalar(ScalarOpsDescription),
    Abs(UnaryOpsDescription),
    Sum(UnaryOpsDescription),
}

/// One elementary tensor operation, on float or on integer tensors.
#[derive(Debug)]
pub enum TensorOpsDescription {
    NumericOpsFloat(NumericOpsDescription),
    NumericOpsInt(NumericOpsDescription),
}

/// Mathematical value of an operation: its element family, its kind, its scalar
/// operand (zero where it has none) and its tensors in operand order, output last.
pub struct OpsModel {
    pub family: u8,
    pub kind: u8,
    pub scalar: u32,
    pub tensors: Seq<TensorModel>,
}

pub open spec fn binary_tensors(d: BinaryOpsDescription) -> Seq<TensorModel> {
    seq![d.lhs@, d.rhs@, d.out@]
}

pub open spec fn scalar_tensors(d: ScalarOpsDescription) -> Seq<TensorModel> {
    seq![d.lhs@, d.out@]
}

pub open spec fn unary_tensors(d: UnaryOpsDescription) -> Seq<TensorModel> {
    seq![d.input@, d.out@]
}

impl NumericOpsDescription {
    pub open spec fn spec_kind(&self) -> u8 {
        match self {
            NumericOpsDescription::Add(_) => 0,
            NumericOpsDescription::AddScalar(_) => 1,
            NumericOpsDescription::Sub(_) => 2,
            NumericOpsDescription::SubScalar(_) => 3,
            NumericOpsDescription::Mul(_) => 4,
            NumericOpsDescription::MulScalar(_) => 5,
            NumericOpsDescription::Div(_) => 6,
            NumericOpsDescription::DivScalar(_) => 7,
            NumericOpsDescription::Abs(_) => 8,
            NumericOpsDescription::Sum(_) => 9,
        }
    }

    pub open spec fn spec_scalar(&self) -> u32 {
        match self {
            NumericOpsDescription::AddScalar(d) => d.rhs,
            NumericOpsDescription::SubScalar(d) => d.rhs,
            NumericOpsDescription::MulScalar(d) => d.rhs,
            NumericOpsDescription::DivScalar(d) => d.rhs,
            _ => 0,
        }
    }

    pub open spec fn spec_tensors(&self) -> Seq<TensorModel> {
        match self {
            NumericOpsDescription::Add(d) => binary_tensors(*d),
            NumericOpsDescription::AddScalar(d) => scalar_tensors(*d),
            NumericOpsDescription::Sub(d) => binary_tensors(*d),
            NumericOpsDescription::SubScalar(d) => scalar_tensors(*d),
            NumericOpsDescription::Mul(d) => binary_tensors(*d),
            NumericOpsDescription::MulScalar(d) => scalar_tensors(*d),
            NumericOpsDescription::Div(d) => binary_tensors(*d),
            NumericOpsDescription::DivScalar(d) => scalar_tensors(*d),
            NumericOpsDescription::Abs(d) => unary_tensors(*d),
            NumericOpsDescription::Sum(d) => unary_tensors(*d),
        }
    }

    pub fn kind(&self) -> (r: u8)
        ensures
            r == self.spec_kind(),
    {
        match self {
            NumericOpsDescription::Add(_) => 0,
            NumericOpsDescription::AddScalar(_) => 1,
            NumericOpsDescription::Sub(_) => 2,
            NumericOpsDescription::SubScalar(_) => 3,
            NumericOpsDescription::Mul(_) => 4,
            NumericOpsDescription::MulScalar(_) => 5,
            NumericOpsDescription::Div(_) => 6,
            NumericOpsDescription::DivScalar(_) => 7,
            NumericOpsDescription::Abs(_) => 8,
            NumericOpsDescription::Sum(_) => 9,
        }
    }

    pub fn scalar(&self) -> (r: u32)
        ensures
            r == self.spec_scalar(),
    {
        match self {
            NumericOpsDescription::AddScalar(d) => d.rhs,
            NumericOpsDescription::SubScalar(d) => d.rhs,
            NumericOpsDescription::MulScalar(d) => d.rhs,
            NumericOpsDescription::DivScalar(d) => d.rhs,
            _ => 0,
        }
    }

    /// Number of tensors the operation names, output included.
    pub fn arity(&self) -> (r: usize)
        ensures
            r == self.spec_tensors().len(),
    {
        match self {
            NumericOpsDescription::Add(_) | NumericOpsDescription::Sub(_)
            | NumericOpsDescription::Mul(_) | NumericOpsDescription::Div(_) => 3,
            _ => 2,
        }
    }

    /// The `i`-th tensor of the operation, in operand order, output last.
    pub fn tensor(&self, i: usize) -> (r: &TensorDescription)
        requires
            i < self.spec_tensors().len(),
        ensures
            r@ == self.spec_tensors()[i as int],
    {
        match self {
            NumericOpsDescription::Add(d) | NumericOpsDescription::Sub(d)
            | NumericOpsDescription::Mul(d) | NumericOpsDescription::Div(d) => {
                if i == 0 {
                    &d.lhs
                } else if i == 1 {
                    &d.rhs
                } else {
                    &d.out
                }
            },
            NumericOpsDescription::AddScalar(d) | NumericOpsDescription::SubScalar(d)
            | NumericOpsDescription::MulScalar(d) | NumericOpsDescription::DivScalar(d) => {
                if i == 0 {
                    &d.lhs
                } else {
                    &d.out
                }
            },
            NumericOpsDescription::Abs(d) | NumericOpsDescription::Sum(d) => {
                if i == 0 {
                    &d.input
                } else {
                    &d.out
                }
            },
        }
    }
}

impl View for TensorOpsDescription {
    type V = OpsModel;

    open spec fn view(&self) -> OpsModel {
        let n = self.spec_numeric();
        OpsModel {
            family: self.spec_family(),
            kind: n.spec_kind(),
            scalar: n.spec_scalar(),
            tensors: n.spec_tensors(),
        }
    }
}

impl TensorOpsDescription {
    pub open spec fn spec_family(&self) -> u8 {
        match self {
            TensorOpsDescription::NumericOpsFloat(_) => 0,
            TensorOpsDescription::NumericOpsInt(_) => 1,
        }
    }

    pub open spec fn spec_numeric(&self) -> NumericOpsDescription {
        match self {
            TensorOpsDescription::NumericOpsFloat(n) => *n,
            TensorOpsDescription::NumericOpsInt(n) => *n,
        }
    }

    pub fn family(&self) -> (r: u8)
        ensures
            r == self.spec_family(),
    {
        match self {
            TensorOpsDescription::NumericOpsFloat(_) => 0,
            TensorOpsDescription::NumericOpsInt(_) => 1,
        }
    }

    pub fn numeric(&self) -> (r: &NumericOpsDescription)
        ensures
            *r == self.spec_numeric(),
    {
        match self {
            TensorOpsDescription::NumericOpsFloat(n) => n,
            TensorOpsDescription::NumericOpsInt(n) => n,
        }
    }
}

impl TensorOpsDescription {
    /// Field-wise equality of two operations.
    pub fn same_as(&self, other: &TensorOpsDescription) -> (r: bool)
        ensures
            r == (self@ == other@),
    {
        let a = self.numeric();
        let b = other.numeric();
        if self.family() != other.family() || a.kind() != b.kind() || a.scalar() != b.scalar()
            || a.arity() != b.arity() {
            return false;
        }
        let n = a.arity();
        let mut i: usize = 0;
        while i < n
            invariant
                *a == self.spec_numeric(),
                *b == other.spec_numeric(),
                n == a.spec_tensors().len(),
                n == b.spec_tensors().len(),
                i <= n,
                forall|j: int| 0 <= j < i ==> a.spec_tensors()[j] == b.spec_tensors()[j],
            decreases n - i,
        {
            if !a.tensor(i).same_as(b.tensor(i)) {
                return false;
            }
            i = i + 1;
        }
        assert(a.spec_tensors() =~= b.spec_tensors());
        true
    }
}

impl PartialEq for TensorOpsDescription {
    fn eq(&self, other: &TensorOpsDescription) -> (r: bool) {
        self.same_as(other)
    }
}

impl vstd::std_specs::cmp::PartialEqSpecImpl for TensorOpsDescription {
    open spec fn obeys_eq_spec() -> bool {
        true
    }

    open spec fn eq_spec(&self, other: &TensorOpsDescription) -> bool {
        self@ == other@
    }
}

/// An operation in relative form: its scalar operand cleared.
pub open spec fn relative_of(op: OpsModel) -> OpsModel {
    OpsModel { scalar: 0, ..op }
}

impl BinaryOpsDescription {
    fn duplicate(&self) -> (r: Self)
        ensures
            binary_tensors(r) == binary_tensors(*self),
    {
        BinaryOpsDescription { lhs: self.lhs.clone(), rhs: self.rhs.clone(), out: self.out.clone() }
    }
}

impl ScalarOpsDescription {
    fn with_scalar(&self, value: u32) -> (r: Self)
        ensures
            scalar_tensors(r) == scalar_tensors(*self),
            r.rhs == value,
    {
        ScalarOpsDescription { lhs: self.lhs.clone(), rhs: value, out: self.out.clone() }
    }
}

impl UnaryOpsDescription {
    fn duplicate(&self) -> (r: Self)
        ensures
            unary_tensors(r) == unary_tensors(*self),
    {
        UnaryOpsDescription { input: self.input.clone(), out: self.out.clone() }
    }
}

impl NumericOpsDescription {
    /// A copy of the operation whose scalar operand, where it has one, is `value`.
    fn with_scalar(&self, value: u32) -> (r: Self)
        ensures
            r.spec_kind() == self.spec_kind(),
            r.spec_scalar() == (if self.spec_kind() % 2 == 1 && self.spec_kind() < 8 {
                value
            } else {
                0
            }),
            r.spec_tensors() == self.spec_tensors(),
    {
        match self {
            NumericOpsDescription::Add(d) => NumericOpsDescription::Add(d.duplicate()),
            NumericOpsDescription::AddScalar(d) => NumericOpsDescription::AddScalar(d.with_scalar(value)),
            NumericOpsDescription::Sub(d) => NumericOpsDescription::Sub(d.duplicate()),
            NumericOpsDescription::SubScalar(d) => NumericOpsDescription::SubScalar(d.with_scalar(value)),
            NumericOpsDescription::Mul(d) => NumericOpsDescription::Mul(d.duplicate()),
            NumericOpsDescription::MulScalar(d) => NumericOpsDescription::MulScalar(d.with_scalar(value)),
            NumericOpsDescription::Div(d) => NumericOpsDescription::Div(d.duplicate()),
            NumericOpsDescription::DivScalar(d) => NumericOpsDescription::DivScalar(d.with_scalar(value)),
            NumericOpsDescription::Abs(d) => NumericOpsDescription::Abs(d.duplicate()),
            NumericOpsDescription::Sum(d) => NumericOpsDescription::Sum(d.duplicate()),
        }
    }
}

impl TensorOpsDescription {
    fn with_scalar(&self, value: u32) -> (r: Self)
        ensures
            r.spec_family() == self.spec_family(),
            r.spec_numeric().spec_kind() == self.spec_numeric().spec_kind(),
            r.spec_numeric().spec_tensors() == self.spec_numeric().spec_tensors(),
            r.spec_numeric().spec_scalar() == (if self.spec_numeric().spec_kind() % 2 == 1
                && self.spec_numeric().spec_kind() < 8 {
                value
            } else {
                0
            }),
    {
        match self {
            TensorOpsDescription::NumericOpsFloat(n) => TensorOpsDescription::NumericOpsFloat(n.with_scalar(value)),
            TensorOpsDescription::NumericOpsInt(n) => TensorOpsDescription::NumericOpsInt(n.with_scalar(value)),
        }
    }

    /// The operation with its literal scalar operand cleared, so that operations
    /// that differ only in a constant compare equal.
    pub fn to_relative(&self) -> (r: Self)
        ensures
            r@ == relative_of(self@),
    {
        self.with_scalar(0)
    }
}

impl Clone for TensorOpsDescription {
    fn clone(&self) -> (r: Self)
        ensures
            r@ == self@,
    {
        self.with_scalar(self.numeric().scalar())
    }
}

/// Little-endian bytes of a 64-bit word.
pub open spec fn word_bytes(v: u64) -> Seq<u8> {
    seq![
        v as u8,
        (v >> 8u64) as u8,
        (v >> 16u64) as u8,
        (v >> 24u64) as u8,
        (v >> 32u64) as u8,
        (v >> 40u64) as u8,
        (v >> 48u64) as u8,
        (v >> 56u64) as u8,
    ]
}

pub open spec fn status_byte(s: TensorStatus) -> u8 {
    match s {
        TensorStatus::ReadOnly => 0,
        TensorStatus::ReadWrite => 1,
        TensorStatus::NotInit => 2,
    }
}

pub open spec fn dims_bytes(dims: Seq<usize>) -> Seq<u8>
    decreases dims.len(),
{
    if dims.len() == 0 {
        seq![]
    } else {
        dims_bytes(dims.drop_last()) + word_bytes(dims.last() as u64)
    }
}

pub open spec fn tensor_bytes(t: TensorModel) -> Seq<u8> {
    word_bytes(t.id) + word_bytes(t.shape.len() as u64) + dims_bytes(t.shape) + seq![
        status_byte(t.status),
    ]
}

pub open spec fn tensors_bytes(ts: Seq<TensorModel>) -> Seq<u8>
    decreases ts.len(),
{
    if ts.len() == 0 {
        seq![]
    } else {
        tensors_bytes(ts.drop_last()) + tensor_bytes(ts.last())
    }
}

/// The bytes an operation is hashed over: its element family and its tensors.
/// Its kind and scalar are left out, so that operations of one shape that differ
/// only in what they compute fall in one bucket.
pub open spec fn hash_bytes(op: OpsModel) -> Seq<u8> {
    seq![op.family] + tensors_bytes(op.tensors)
}

fn push_word(out: &mut Vec<u8>, v: u64)
    ensures
        final(out)@ == old(out)@ + word_bytes(v),
{
    out.push(v as u8);
    out.push((v >> 8u64) as u8);
    out.push((v >> 16u64) as u8);
    out.push((v >> 24u64) as u8);
    out.push((v >> 32u64) as u8);
    out.push((v >> 40u64) as u8);
    out.push((v >> 48u64) as u8);
    out.push((v >> 56u64) as u8);
    assert(final(out)@ =~= old(out)@ + word_bytes(v));
}

impl TensorDescription {
    fn push_bytes(&self, out: &mut Vec<u8>)
        ensures
            final(out)@ == old(out)@ + tensor_bytes(self@),
    {
        push_word(out, self.id.value);
        push_word(out, self.shape.len() as u64);
        let ghost start = out@;
        let mut i: usize = 0;
        while i < self.shape.len()
            invariant
                i <= self.shape.len(),
                out@ == start + dims_bytes(self.shape@.take(i as int)),
            decreases self.shape.len() - i,
        {
            push_word(out, self.shape[i] as u64);
            assert(self.shape@.take(i + 1).drop_last() =~= self.shape@.take(i as int));
            i = i + 1;
            assert(out@ =~= start + dims_bytes(self.shape@.take(i as int)));
        }
        assert(self.shape@.take(self.shape.len() as int) =~= self.shape@);
        let b: u8 = match self.status {
            TensorStatus::ReadOnly => 0,
            TensorStatus::ReadWrite => 1,
            TensorStatus::NotInit => 2,
        };
        out.push(b);
        assert(out@ =~= old(out)@ + tensor_bytes(self@));
    }
}

impl TensorOpsDescription {
    /// The bytes the operation is hashed over.
    pub fn hash_content(&self) -> (r: Vec<u8>)
        ensures
            r@ == hash_bytes(self@),
    {
        let mut out: Vec<u8> = Vec::new();
        out.push(self.family());
        let n = self.numeric();
        let k = n.arity();
        let mut i: usize = 0;
        while i < k
            invariant
                k == n.spec_tensors().len(),
                *n == self.spec_numeric(),
                i <= k,
                out@ == seq![self.spec_family()] + tensors_bytes(n.spec_tensors().take(i as int)),
            decreases k - i,
        {
            n.tensor(i).push_bytes(&mut out);
            assert(n.spec_tensors().take(i + 1).drop_last() =~= n.spec_tensors().take(i as int));
            i = i + 1;
            assert(out@ =~= seq![self.spec_family()] + tensors_bytes(n.spec_tensors().take(i as int)));
        }
        assert(n.spec_tensors().take(k as int) =~= n.spec_tensors());
        out
    }
}

} // verus!

//! The supported operator set, its classification into direct polynomial
//! arithmetic versus lookup-table-backed evaluation, and the numeric domain
//! each lookup table must cover.

use vstd::prelude::*;
use crate::scale::{Scale, quantize, quantize_spec};
use crate::model::Visibility;

verus! {

/// An exact rational number: the library's representation of the numeric
/// operator parameters, so that equality of two operator instances is exact.
#[derive(Clone, Copy, Debug, PartialEq, Eq, Hash, Structural)]
pub struct Rat {
    pub num: i64,
    pub den: i64,
}

impl Rat {
    /// Positive denominator, magnitudes small enough to quantize without
    /// overflow.
    pub open spec fn wf(&self) -> bool {
        0 < self.den <= 0x80000000 && -0x80000000 <= self.num <= 0x80000000
    }

    /// The integer `n` as a rational.
    pub fn from_int(n: i32) -> (r: Rat)
        ensures
            r.num == n && r.den == 1,
            r.wf(),
    {
        Rat { num: n as i64, den: 1 }
    }
}

/// An ordered pair of sizes: a stride, a padding, or a similar per-axis
/// pair.
#[derive(Clone, Copy, Debug, PartialEq, Eq, Structural)]
pub struct Dim2 {
    pub d0: usize,
    pub d1: usize,
}

/// The (inner) element type of tensors.
pub trait TensorType: Clone + Sized {
    /// The zero value, where one exists.
    fn zero() -> Option<Self>;

    /// The unit value, where one exists.
    fn one() -> Option<Self>;

    /// The larger of `self` and the argument, where ordered.
    fn tmax(&self, other: &Self) -> Option<Self>;
}

impl TensorType for i128 {
    fn zero() -> (r: Option<i128>)
        ensures
            r == Some(0i128),
    {
        Some(0)
    }

    fn one() -> (r: Option<i128>)
        ensures
            r == Some(1i128),
    {
        Some(1)
    }

    fn tmax(&self, other: &i128) -> (r: Option<i128>)
        ensures
            r == Some(if *self >= *other { *self } else { *other }),
    {
        if *self >= *other {
            Some(*self)
        } else {
            Some(*other)
        }
    }
}

/// The product of a shape's dimensions: the number of elements a tensor of
/// that shape holds.
pub open spec fn dims_product(dims: Seq<usize>) -> int
    decreases dims.len(),
{
    if dims.len() == 0 {
        1
    } else {
        dims[0] * dims_product(dims.drop_first())
    }
}

/// A multi-dimensional array of quantized values. `inner` holds the values
/// in row-major order; `dims` is the shape; `scale` the fixed-point scale the
/// values are expressed at; `visibility` an optional per-tensor tag.
#[derive(Clone, Debug, PartialEq)]
pub struct Tensor {
    pub inner: Vec<i128>,
    pub dims: Vec<usize>,
    pub scale: Option<Scale>,
    pub visibility: Option<Visibility>,
}

impl Tensor {
    /// The element count matches the shape.
    pub open spec fn wf(&self) -> bool {
        self.inner@.len() == dims_product(self.dims@)
    }

    /// The number of elements.
    pub fn len(&self) -> (r: usize)
        ensures
            r == self.inner@.len(),
    {
        self.inner.len()
    }
}

/// An operation expressible directly as fixed-degree polynomial constraints.
#[derive(Clone, Debug, PartialEq)]
pub enum PolyOp {
    MultiBroadcastTo { shape: Vec<usize> },
    Einsum { equation: String },
    Conv {
        kernel: Tensor,
        bias: Option<Tensor>,
        padding: Vec<Dim2>,
        stride: Dim2,
    },
    Downsample { axis: usize, stride: usize, modulo: usize },
    DeConv {
        kernel: Tensor,
        bias: Option<Tensor>,
        padding: Vec<Dim2>,
        output_padding: Dim2,
        stride: Dim2,
    },
    Add,
    Sub,
    Neg,
    Mult,
    Identity,
    Reshape(Vec<usize>),
    MoveAxis { source: usize, destination: usize },
    Flatten(Vec<usize>),
    Pad(Vec<Dim2>),
    Sum { axes: Vec<usize> },
    Prod { axes: Vec<usize>, len_prod: usize },
    Pow(u32),
    Pack(u32, u32),
    GlobalSumPool,
    Concat { axis: usize },
    Slice { axis: usize, start: usize, end: usize },
    Iff,
    Resize { scale_factor: Vec<usize> },
    Not,
    And,
    Or,
    Xor,
}

/// A nonlinear operation backed by a precomputed lookup table. Each variant
/// carries the exact parameters needed to reconstruct its table, so equality
/// of two instances is exact.
#[derive(Clone, Copy, Debug, PartialEq, Eq, Hash, Structural)]
pub enum LookupOp {
    Abs,
    Div { denom: Rat },
    ReLU,
    Max { scale: Rat, a: Rat },
    Min { scale: Rat, a: Rat },
    Ceil { scale: Rat },
    Floor { scale: Rat },
    Round { scale: Rat },
    RoundHalfToEven { scale: Rat },
    Sqrt { scale: Rat },
    Rsqrt { scale: Rat },
    Recip { scale: Rat },
    LeakyReLU { slope: Rat },
    Sigmoid { scale: Rat },
    Ln { scale: Rat },
    Exp { scale: Rat },
    Cos { scale: Rat },
    ACos { scale: Rat },
    Cosh { scale: Rat },
    ACosh { scale: Rat },
    Sin { scale: Rat },
    ASin { scale: Rat },
    Sinh { scale: Rat },
    ASinh { scale: Rat },
    Tan { scale: Rat },
    ATan { scale: Rat },
    Tanh { scale: Rat },
    ATanh { scale: Rat },
    Erf { scale: Rat },
    GreaterThan { a: Rat },
    LessThan { a: Rat },
    GreaterThanEqual { a: Rat },
    LessThanEqual { a: Rat },
    Sign,
    KroneckerDelta,
    Pow { scale: Rat, a: Rat },
}

impl LookupOp {
    /// Every rational parameter of the operator is well formed.
    pub open spec fn wf(&self) -> bool {
        match *self {
            LookupOp::Div { denom } => denom.wf(),
            LookupOp::Max { scale, a } => scale.wf() && a.wf(),
            LookupOp::Min { scale, a } => scale.wf() && a.wf(),
            LookupOp::Ceil { scale } => scale.wf(),
            LookupOp::Floor { scale } => scale.wf(),
            LookupOp::Round { scale } => scale.wf(),
            LookupOp::RoundHalfToEven { scale } => scale.wf(),
            LookupOp::Sqrt { scale } => scale.wf(),
            LookupOp::Rsqrt { scale } => scale.wf(),
            LookupOp::Recip { scale } => scale.wf(),
            LookupOp::LeakyReLU { slope } => slope.wf(),
            LookupOp::Sigmoid { scale } => scale.wf(),
            LookupOp::Ln { scale } => scale.wf(),
            LookupOp::Exp { scale } => scale.wf(),
            LookupOp::Cos { scale } => scale.wf(),
            LookupOp::ACos { scale } => scale.wf(),
            LookupOp::Cosh { scale } => scale.wf(),
            LookupOp::ACosh { scale } => scale.wf(),
            LookupOp::Sin { scale } => scale.wf(),
            LookupOp::ASin { scale } => scale.wf(),
            LookupOp::Sinh { scale } => scale.wf(),
            LookupOp::ASinh { scale } => scale.wf(),
            LookupOp::Tan { scale } => scale.wf(),
            LookupOp::ATan { scale } => scale.wf(),
            LookupOp::Tanh { scale } => scale.wf(),
            LookupOp::ATanh { scale } => scale.wf(),
            LookupOp::Erf { scale } => scale.wf(),
            LookupOp::GreaterThan { a } => a.wf(),
            LookupOp::LessThan { a } => a.wf(),
            LookupOp::GreaterThanEqual { a } => a.wf(),
            LookupOp::LessThanEqual { a } => a.wf(),
            LookupOp::Pow { scale, a } => scale.wf() && a.wf(),
            _ => true,
        }
    }
}

/// An operator attached to a graph node.
#[derive(Clone, Debug, PartialEq)]
pub enum SupportedOp {
    /// A node that receives one of the graph's input tensors.
    Input,
    /// A node whose output is a constant tensor.
    Constant(Tensor),
    /// A direct polynomial operation.
    Linear(PolyOp),
    /// A lookup-table-backed operation.
    Nonlinear(LookupOp),
    /// An operator the compiler does not support, by name.
    Unknown(String),
}

/// The classification of an operator: direct polynomial arithmetic, or
/// backed by a lookup table.
#[derive(Clone, Debug, PartialEq)]
pub enum OpClass {
    Poly(PolyOp),
    Lookup(LookupOp),
}

/// An operator outside the supported set, carrying its name.
#[derive(Clone, Debug, PartialEq)]
pub struct UnsupportedOpError {
    pub name: String,
}

/// How `classify` assigns each operator.
pub open spec fn classify_spec(op: SupportedOp) -> Result<OpClass, UnsupportedOpError> {
    match op {
        SupportedOp::Input => Ok(OpClass::Poly(PolyOp::Identity)),
        SupportedOp::Constant(_) => Ok(OpClass::Poly(PolyOp::Identity)),
        SupportedOp::Linear(p) => Ok(OpClass::Poly(p)),
        SupportedOp::Nonlinear(l) => Ok(OpClass::Lookup(l)),
        SupportedOp::Unknown(name) => Err(UnsupportedOpError { name }),
    }
}

/// Total, pure assignment of each operator to exactly one class; an
/// unsupported operator fails, naming the operator.
pub fn classify(op: SupportedOp) -> (r: Result<OpClass, UnsupportedOpError>)
    ensures
        r == classify_spec(op),
{
    match op {
        SupportedOp::Input => Ok(OpClass::Poly(PolyOp::Identity)),
        SupportedOp::Constant(_) => Ok(OpClass::Poly(PolyOp::Identity)),
        SupportedOp::Linear(p) => Ok(OpClass::Poly(p)),
        SupportedOp::Nonlinear(l) => Ok(OpClass::Lookup(l)),
        SupportedOp::Unknown(name) => Err(UnsupportedOpError { name }),
    }
}

/// The lookup range cannot cover the operator's analytic domain.
#[derive(Clone, Copy, Debug, PartialEq, Eq, Structural)]
pub enum DomainError {
    /// The quantized form of a divisor is zero at the active scale.
    QuantizedDenominatorZero,
    /// The configured lookup range leaves no admissible input.
    EmptyDomain,
}

/// The closed integer interval a lookup table must cover for `op` at scale
/// `s`, given the configured admissible range `(lo, hi)`.
pub open spec fn lookup_domain_spec(op: LookupOp, s: int, lo: int, hi: int) -> Result<
    (int, int),
    DomainError,
> {
    if lo > hi {
        Err(DomainError::EmptyDomain)
    } else {
        match op {
            LookupOp::Div { denom } => if quantize_spec(denom.num as int, denom.den as int, s)
                == 0 {
                Err(DomainError::QuantizedDenominatorZero)
            } else {
                Ok((lo, hi))
            },
            LookupOp::Sqrt { .. } => if hi < 0 {
                Err(DomainError::EmptyDomain)
            } else {
                Ok((if lo > 0 { lo } else { 0 }, hi))
            },
            LookupOp::Rsqrt { .. } => if hi < 1 {
                Err(DomainError::EmptyDomain)
            } else {
                Ok((if lo > 1 { lo } else { 1 }, hi))
            },
            LookupOp::Ln { .. } => if hi < 1 {
                Err(DomainError::EmptyDomain)
            } else {
                Ok((if lo > 1 { lo } else { 1 }, hi))
            },
            LookupOp::ACosh { .. } => if hi < 1 {
                Err(DomainError::EmptyDomain)
            } else {
                Ok((if lo > 1 { lo } else { 1 }, hi))
            },
            _ => Ok((lo, hi)),
        }
    }
}

/// Computes the closed integer interval the operator's lookup table must
/// cover: the configured `lookup_range`, narrowed to the operator's analytic
/// domain, with `DomainError` where the range cannot avoid an inadmissible
/// input.
pub fn lookup_domain(op: &LookupOp, s: Scale, lookup_range: (i128, i128)) -> (r: Result<
    (i128, i128),
    DomainError,
>)
    requires
        op.wf(),
        -64 <= s <= 64,
    ensures
        match r {
            Ok(iv) => lookup_domain_spec(*op, s as int, lookup_range.0 as int, lookup_range.1 as int)
                == Ok::<(int, int), DomainError>((iv.0 as int, iv.1 as int)),
            Err(e) => lookup_domain_spec(*op, s as int, lookup_range.0 as int, lookup_range.1 as int)
                == Err::<(int, int), DomainError>(e),
        },
{
    let (lo, hi) = lookup_range;
    if lo > hi {
        return Err(DomainError::EmptyDomain);
    }
    match op {
        LookupOp::Div { denom } => {
            let q = quantize(denom.num as i128, denom.den as i128, s);
            if q == 0 {
                Err(DomainError::QuantizedDenominatorZero)
            } else {
                Ok((lo, hi))
            }
        },
        LookupOp::Sqrt { .. } => {
            if hi < 0 {
                Err(DomainError::EmptyDomain)
            } else {
                Ok((if lo > 0 { lo } else { 0 }, hi))
            }
        },
        LookupOp::Rsqrt { .. } => {
            if hi < 1 {
                Err(DomainError::EmptyDomain)
            } else {
                Ok((if lo > 1 { lo } else { 1 }, hi))
            }
        },
        LookupOp::Ln { .. } => {
            if hi < 1 {
                Err(DomainError::EmptyDomain)
            } else {
                Ok((if lo > 1 { lo } else { 1 }, hi))
            }
        },
        LookupOp::ACosh { .. } => {
            if hi < 1 {
                Err(DomainError::EmptyDomain)
            } else {
                Ok((if lo > 1 { lo } else { 1 }, hi))
            }
        },
        _ => Ok((lo, hi)),
    }
}

} // verus!

//! The witness engine: executes the graph under fixed-point integer
//! arithmetic, records the extremes fed to any lookup table, and packages
//! the result with the committed or hashed artifacts for private data.

use vstd::prelude::*;
use crate::scale::{Scale, div_round_half_even, div_rhe, should_rebase, should_rebase_spec};
use crate::model::{Model, ParsedNodes, NodeType, Outlet, GraphError, InputMapping, is_topo_order};
use crate::supportedop::{Tensor, SupportedOp, PolyOp, LookupOp, UnsupportedOpError};
use crate::graphsettings::{CheckMode, LookupRange, RunArgs};
use crate::snark::Felt;

verus! {

/// The committed artifacts for one data category: an algebraic hash per
/// committed group, or one commitment point (as raw coordinates) per
/// committed column, as the external primitives returned them.
#[derive(Clone, Debug, PartialEq, Eq)]
pub struct ModuleForwardResult {
    /// One hash element per committed group, if the category is hashed.
    pub poseidon_hash: Option<Vec<Felt>>,
    /// One point per committed column, if the category is committed.
    pub kzg_commit: Option<Vec<Vec<Felt>>>,
}

/// Human- and cross-language-readable renderings of the witness: decimal
/// strings for rescaled values, `0x`-prefixed strings for raw elements.
/// The raw-element groups for the plain inputs and outputs stay empty in
/// this library: embedding a quantized integer into the proof field is the
/// backend's own encoding, so only the already-embedded committed artifacts
/// are rendered as `0x` strings here.
#[derive(Clone, Debug, PartialEq, Eq, Default)]
pub struct PrettyElements {
    pub rescaled_inputs: Vec<Vec<String>>,
    pub inputs: Vec<Vec<String>>,
    pub processed_inputs: Vec<Vec<String>>,
    pub processed_params: Vec<Vec<String>>,
    pub processed_outputs: Vec<Vec<String>>,
    pub rescaled_outputs: Vec<Vec<String>>,
    pub outputs: Vec<Vec<String>>,
}

/// A witness value fell outside the declared lookup-table domain.
#[derive(Clone, Copy, Debug, PartialEq, Eq, Structural)]
pub struct LookupRangeError {
    /// The offending operand.
    pub value: i128,
    /// The configured admissible interval.
    pub min: i128,
    pub max: i128,
}

/// Any failure of witness generation.
#[derive(Clone, Debug, PartialEq)]
pub enum ForwardError {
    /// Structural defect met during execution.
    Graph(GraphError),
    /// An operator the engine cannot evaluate.
    Unsupported(UnsupportedOpError),
    /// In `SAFE` mode: a lookup input outside the configured range.
    LookupRange(LookupRangeError),
    /// A value left the machine-integer range the engine computes in.
    Overflow,
}

/// The result of one execution of the graph: the quantized inputs and
/// outputs, the committed artifacts of visibility-restricted categories,
/// and the observed lookup-input extremes.
#[derive(Clone, Debug, PartialEq)]
pub struct GraphWitness {
    /// The inputs of the forward pass, flattened per graph input.
    pub inputs: Vec<Vec<i128>>,
    /// Readable renderings, attached by a separate step.
    pub pretty_elements: Option<PrettyElements>,
    /// The outputs of the forward pass, flattened per graph output.
    pub outputs: Vec<Vec<i128>>,
    /// Artifacts of the input category, when hashed or committed.
    pub processed_inputs: Option<ModuleForwardResult>,
    /// Artifacts of the parameter category, when hashed or committed.
    pub processed_params: Option<ModuleForwardResult>,
    /// Artifacts of the output category, when hashed or committed.
    pub processed_outputs: Option<ModuleForwardResult>,
    /// Largest operand fed to any lookup table (0 if none was larger).
    pub max_lookup_inputs: i128,
    /// Smallest operand fed to any lookup table (0 if none was smaller).
    pub min_lookup_inputs: i128,
}

/// One precomputed nonlinearity table: `values[i]` is the output for input
/// `start + i`.
#[derive(Clone, Debug, PartialEq)]
pub struct LookupTable {
    pub op: LookupOp,
    pub start: i128,
    pub values: Vec<i128>,
}

/// The precomputed tables for the nonlinearities whose values integer
/// arithmetic cannot reproduce exactly; built outside the engine.
#[derive(Clone, Debug, PartialEq)]
pub struct LookupTables {
    pub tables: Vec<LookupTable>,
}

/// The output the supplied tables assign to `op` at `x`: the first matching
/// table's entry, or 0 where no table covers the input.
pub open spec fn table_value(ts: Seq<LookupTable>, op: LookupOp, x: int) -> int
    decreases ts.len(),
{
    if ts.len() == 0 {
        0
    } else {
        if ts[0].op == op && ts[0].start <= x < ts[0].start + ts[0].values@.len() {
            ts[0].values@[x - ts[0].start] as int
        } else {
            table_value(ts.drop_first(), op, x)
        }
    }
}

/// The engine's value for `op` at `x`: exact integer arithmetic for the
/// algebraic family, the supplied table otherwise.
pub open spec fn eval_lookup_spec(op: LookupOp, x: int, ts: Seq<LookupTable>) -> int {
    match op {
        LookupOp::Abs => if x >= 0 {
            x
        } else {
            -x
        },
        LookupOp::ReLU => if x >= 0 {
            x
        } else {
            0
        },
        LookupOp::Sign => if x > 0 {
            1
        } else if x < 0 {
            -1
        } else {
            0
        },
        LookupOp::KroneckerDelta => if x == 0 {
            1
        } else {
            0
        },
        LookupOp::GreaterThan { a } => if x * a.den > a.num {
            1
        } else {
            0
        },
        LookupOp::LessThan { a } => if x * a.den < a.num {
            1
        } else {
            0
        },
        LookupOp::GreaterThanEqual { a } => if x * a.den >= a.num {
            1
        } else {
            0
        },
        LookupOp::LessThanEqual { a } => if x * a.den <= a.num {
            1
        } else {
            0
        },
        LookupOp::Div { denom } => if denom.num > 0 {
            div_round_half_even(x * denom.den, denom.num as int)
        } else if denom.num < 0 {
            div_round_half_even(-(x * denom.den), -(denom.num as int))
        } else {
            0
        },
        LookupOp::LeakyReLU { slope } => if x >= 0 {
            x
        } else {
            div_round_half_even(x * slope.num, slope.den as int)
        },
        _ => table_value(ts, op, x),
    }
}

/// Looks an input up in the supplied tables.
fn table_lookup(ts: &LookupTables, op: LookupOp, x: i128) -> (r: i128)
    ensures
        r == table_value(ts.tables@, op, x as int),
{
    let n = ts.tables.len();
    let mut i: usize = 0;
    proof {
        assert(ts.tables@.skip(0) =~= ts.tables@);
    }
    while i < n
        invariant
            i <= n,
            n == ts.tables@.len(),
            table_value(ts.tables@, op, x as int) == table_value(
                ts.tables@.skip(i as int),
                op,
                x as int,
            ),
        decreases n - i,
    {
        let t = &ts.tables[i];
        proof {
            assert(ts.tables@.skip(i as int)[0] == ts.tables@[i as int]);
        }
        if t.op == op {
            proof {
                assert(t.op == op);
            }
            if t.start <= x {
                let vlen = t.values.len();
                match x.checked_sub(t.start) {
                    None => {
                        proof {
                            assert((x as int) >= t.start + t.values@.len());
                        }
                    },
                    Some(d) => {
                        if (d as u128) < (vlen as u128) {
                            let off = d as usize;
                            return t.values[off];
                        }
                        proof {
                            assert((x as int) >= t.start + t.values@.len());
                        }
                    },
                }
            } else {
                proof {
                    assert(!(t.start <= x));
                }
            }
        } else {
            proof {
                assert(t.op != op);
            }
        }
        proof {
            let si = ts.tables@.skip(i as int);
            assert(si.drop_first() =~= ts.tables@.skip(i + 1));
            assert(si[0] == ts.tables@[i as int]);
            assert(*t == ts.tables@[i as int]);
            assert(!(si[0].op == op && si[0].start <= x as int && (x as int) < si[0].start
                + si[0].values@.len()));
            assert(table_value(si, op, x as int) == table_value(
                ts.tables@.skip(i + 1),
                op,
                x as int,
            ));
        }
        i = i + 1;
    }
    proof {
        assert(ts.tables@.skip(n as int) =~= Seq::<LookupTable>::empty());
    }
    0
}

/// Whether an integer is representable in the machine width the engine
/// computes in.
pub open spec fn fits_i128(x: int) -> bool {
    i128::MIN <= x <= i128::MAX
}

/// When the engine's integer evaluation of `op` at `x` leaves the machine
/// range it computes in.
pub open spec fn eval_lookup_overflows(op: LookupOp, x: int) -> bool {
    match op {
        LookupOp::Abs => x == i128::MIN,
        LookupOp::GreaterThan { a } => !fits_i128(x * a.den),
        LookupOp::LessThan { a } => !fits_i128(x * a.den),
        LookupOp::GreaterThanEqual { a } => !fits_i128(x * a.den),
        LookupOp::LessThanEqual { a } => !fits_i128(x * a.den),
        LookupOp::Div { denom } => denom.num != 0 && !(-0x40000000000000000000000000000000 <= x
            * denom.den <= 0x40000000000000000000000000000000),
        LookupOp::LeakyReLU { slope } => x < 0 && !(-0x40000000000000000000000000000000 <= x
            * slope.num <= 0x40000000000000000000000000000000),
        _ => false,
    }
}

/// The engine's value for `op` at `x`: `Overflow` exactly when the operand
/// drives an intermediate product out of the machine range, the operator's
/// value otherwise.
pub fn eval_lookup(op: LookupOp, x: i128, ts: &LookupTables) -> (r: Result<i128, ForwardError>)
    requires
        op.wf(),
    ensures
        match r {
            Ok(v) => v as int == eval_lookup_spec(op, x as int, ts.tables@),
            Err(e) => e == ForwardError::Overflow,
        },
        r is Err <==> eval_lookup_overflows(op, x as int),
{
    match op {
        LookupOp::Abs => {
            if x == i128::MIN {
                Err(ForwardError::Overflow)
            } else if x >= 0 {
                Ok(x)
            } else {
                Ok(-x)
            }
        },
        LookupOp::ReLU => Ok(if x >= 0 { x } else { 0 }),
        LookupOp::Sign => Ok(
            if x > 0 {
                1
            } else if x < 0 {
                -1
            } else {
                0
            },
        ),
        LookupOp::KroneckerDelta => Ok(if x == 0 { 1 } else { 0 }),
        LookupOp::GreaterThan { a } => {
            match x.checked_mul(a.den as i128) {
                None => Err(ForwardError::Overflow),
                Some(p) => Ok(if p > a.num as i128 { 1 } else { 0 }),
            }
        },
        LookupOp::LessThan { a } => {
            match x.checked_mul(a.den as i128) {
                None => Err(ForwardError::Overflow),
                Some(p) => Ok(if p < a.num as i128 { 1 } else { 0 }),
            }
        },
        LookupOp::GreaterThanEqual { a } => {
            match x.checked_mul(a.den as i128) {
                None => Err(ForwardError::Overflow),
                Some(p) => Ok(if p >= a.num as i128 { 1 } else { 0 }),
            }
        },
        LookupOp::LessThanEqual { a } => {
            match x.checked_mul(a.den as i128) {
                None => Err(ForwardError::Overflow),
                Some(p) => Ok(if p <= a.num as i128 { 1 } else { 0 }),
            }
        },
        LookupOp::Div { denom } => {
            if denom.num == 0 {
                Ok(0)
            } else {
                match x.checked_mul(denom.den as i128) {
                    None => Err(ForwardError::Overflow),
                    Some(p) => {
                        if p < -0x40000000000000000000000000000000i128
                            || p > 0x40000000000000000000000000000000i128 {
                            Err(ForwardError::Overflow)
                        } else if denom.num > 0 {
                            Ok(div_rhe(p, denom.num as i128))
                        } else {
                            Ok(div_rhe(-p, -(denom.num as i128)))
                        }
                    },
                }
            }
        },
        LookupOp::LeakyReLU { slope } => {
            if x >= 0 {
                Ok(x)
            } else {
                match x.checked_mul(slope.num as i128) {
                    None => Err(ForwardError::Overflow),
                    Some(p) => {
                        if p < -0x40000000000000000000000000000000i128
                            || p > 0x40000000000000000000000000000000i128 {
                            Err(ForwardError::Overflow)
                        } else {
                            Ok(div_rhe(p, slope.den as i128))
                        }
                    },
                }
            }
        },
        _ => Ok(table_lookup(ts, op, x)),
    }
}

/// `x^e` over the integers.
pub open spec fn pow_int(x: int, e: nat) -> int
    decreases e,
{
    if e == 0 {
        1
    } else {
        x * pow_int(x, (e - 1) as nat)
    }
}

/// The lowest tracker value `SAFE` execution can reach: the range minimum,
/// or the initial 0.
pub open spec fn tracker_lo(lr: LookupRange) -> int {
    if lr.min < 0 {
        lr.min as int
    } else {
        0
    }
}

/// The highest tracker value `SAFE` execution can reach.
pub open spec fn tracker_hi(lr: LookupRange) -> int {
    if lr.max > 0 {
        lr.max as int
    } else {
        0
    }
}

/// A plain element-by-element copy of a tensor.
pub fn tensor_copy(t: &Tensor) -> (r: Tensor)
    ensures
        r.inner@ == t.inner@,
        r.dims@ == t.dims@,
        r.scale == t.scale,
        r.visibility is None,
{
    let mut inner: Vec<i128> = Vec::new();
    let n = t.inner.len();
    let mut i: usize = 0;
    while i < n
        invariant
            i <= n,
            n == t.inner@.len(),
            inner@ == t.inner@.take(i as int),
        decreases n - i,
    {
        inner.push(t.inner[i]);
        proof {
            assert(inner@ =~= t.inner@.take(i + 1));
        }
        i = i + 1;
    }
    let mut dims: Vec<usize> = Vec::new();
    let m = t.dims.len();
    let mut j: usize = 0;
    while j < m
        invariant
            j <= m,
            m == t.dims@.len(),
            dims@ == t.dims@.take(j as int),
        decreases m - j,
    {
        dims.push(t.dims[j]);
        proof {
            assert(dims@ =~= t.dims@.take(j + 1));
        }
        j = j + 1;
    }
    proof {
        assert(t.inner@.take(n as int) =~= t.inner@);
        assert(t.dims@.take(m as int) =~= t.dims@);
    }
    Tensor { inner, dims, scale: t.scale, visibility: None }
}

/// Whether two shapes are equal.
fn dims_eq(a: &Vec<usize>, b: &Vec<usize>) -> (r: bool)
    ensures
        r == (a@ == b@),
{
    if a.len() != b.len() {
        return false;
    }
    let n = a.len();
    let mut i: usize = 0;
    while i < n
        invariant
            i <= n,
            n == a@.len(),
            n == b@.len(),
            forall|j: int| 0 <= j < i ==> a@[j] == b@[j],
        decreases n - i,
    {
        if a[i] != b[i] {
            return false;
        }
        i = i + 1;
    }
    proof {
        assert(a@ =~= b@);
    }
    true
}

/// The elementwise arithmetic the engine applies for a two-operand
/// polynomial operator.
#[derive(Clone, Copy, Debug, PartialEq, Eq, Structural)]
pub enum BinKind {
    Add,
    Sub,
    Mult,
    And,
    Or,
    Xor,
}

/// One element of a two-operand polynomial operator: plain integer
/// arithmetic, the boolean family reading any nonzero value as true.
pub open spec fn bin_spec(k: BinKind, a: int, b: int) -> int {
    match k {
        BinKind::Add => a + b,
        BinKind::Sub => a - b,
        BinKind::Mult => a * b,
        BinKind::And => if a != 0 && b != 0 {
            1
        } else {
            0
        },
        BinKind::Or => if a != 0 || b != 0 {
            1
        } else {
            0
        },
        BinKind::Xor => if (a != 0) != (b != 0) {
            1
        } else {
            0
        },
    }
}

/// Some elementwise result of the operator leaves the machine range.
pub open spec fn binop_overflows(k: BinKind, a: Seq<i128>, b: Seq<i128>) -> bool {
    exists|i: int|
        0 <= i < a.len() && i < b.len() && !fits_i128(
            bin_spec(k, #[trigger] a[i] as int, b[i] as int),
        )
}

/// Elementwise two-operand polynomial arithmetic; the operands must share a
/// shape. The result carries the scale `out_scale`. Fails with `ShapeError`
/// exactly on mismatched shapes, with `Overflow` exactly when some
/// elementwise result leaves the machine range, and succeeds otherwise.
pub fn tensor_binop(a: &Tensor, b: &Tensor, k: BinKind, out_scale: Scale) -> (r: Result<
    Tensor,
    ForwardError,
>)
    ensures
        match r {
            Ok(t) => {
                &&& a.dims@ == b.dims@
                &&& a.inner@.len() == b.inner@.len()
                &&& t.dims@ == a.dims@
                &&& t.inner@.len() == a.inner@.len()
                &&& t.scale == Some(out_scale)
                &&& forall|i: int|
                    0 <= i < t.inner@.len() ==> #[trigger] t.inner@[i] as int == bin_spec(
                        k,
                        a.inner@[i] as int,
                        b.inner@[i] as int,
                    )
            },
            Err(e) => match e {
                ForwardError::Graph(ge) => ge == GraphError::ShapeError && (a.dims@ != b.dims@
                    || a.inner@.len() != b.inner@.len()),
                ForwardError::Overflow => a.dims@ == b.dims@ && a.inner@.len() == b.inner@.len()
                    && binop_overflows(k, a.inner@, b.inner@),
                _ => false,
            },
        },
        a.dims@ == b.dims@ && a.inner@.len() == b.inner@.len() && !binop_overflows(
            k,
            a.inner@,
            b.inner@,
        ) ==> r is Ok,
{
    if !dims_eq(&a.dims, &b.dims) || a.inner.len() != b.inner.len() {
        return Err(ForwardError::Graph(GraphError::ShapeError));
    }
    let n = a.inner.len();
    let mut inner: Vec<i128> = Vec::new();
    let mut i: usize = 0;
    while i < n
        invariant
            i <= n,
            n == a.inner@.len(),
            n == b.inner@.len(),
            a.dims@ == b.dims@,
            inner@.len() == i,
            forall|j: int|
                0 <= j < i ==> #[trigger] inner@[j] as int == bin_spec(
                    k,
                    a.inner@[j] as int,
                    b.inner@[j] as int,
                ),
        decreases n - i,
    {
        let x = a.inner[i];
        let y = b.inner[i];
        let v: i128 = match k {
            BinKind::Add => {
                match x.checked_add(y) {
                    None => {
                        proof {
                            assert(!fits_i128(bin_spec(k, a.inner@[i as int] as int, b.inner@[i as int] as int)));
                        }
                        return Err(ForwardError::Overflow);
                    },
                    Some(v) => v,
                }
            },
            BinKind::Sub => {
                match x.checked_sub(y) {
                    None => {
                        proof {
                            assert(!fits_i128(bin_spec(k, a.inner@[i as int] as int, b.inner@[i as int] as int)));
                        }
                        return Err(ForwardError::Overflow);
                    },
                    Some(v) => v,
                }
            },
            BinKind::Mult => {
                match x.checked_mul(y) {
                    None => {
                        proof {
                            assert(!fits_i128(bin_spec(k, a.inner@[i as int] as int, b.inner@[i as int] as int)));
                        }
                        return Err(ForwardError::Overflow);
                    },
                    Some(v) => v,
                }
            },
            BinKind::And => if x != 0 && y != 0 {
                1
            } else {
                0
            },
            BinKind::Or => if x != 0 || y != 0 {
                1
            } else {
                0
            },
            BinKind::Xor => if (x != 0) != (y != 0) {
                1
            } else {
                0
            },
        };
        inner.push(v);
        i = i + 1;
    }
    let dims = tensor_copy(a).dims;
    Ok(Tensor { inner, dims, scale: Some(out_scale), visibility: None })
}

/// Elementwise negation: fails with `Overflow` exactly when some element is
/// the one value whose negation the machine range lacks, and succeeds
/// otherwise.
pub fn tensor_neg(a: &Tensor, out_scale: Scale) -> (r: Result<Tensor, ForwardError>)
    ensures
        match r {
            Ok(t) => {
                &&& t.dims@ == a.dims@
                &&& t.inner@.len() == a.inner@.len()
                &&& t.scale == Some(out_scale)
                &&& forall|i: int|
                    0 <= i < t.inner@.len() ==> #[trigger] t.inner@[i] as int == -(
                    a.inner@[i] as int)
            },
            Err(e) => e == ForwardError::Overflow,
        },
        r is Err <==> exists|i: int| 0 <= i < a.inner@.len() && #[trigger] a.inner@[i] == i128::MIN,
{
    let n = a.inner.len();
    let mut inner: Vec<i128> = Vec::new();
    let mut i: usize = 0;
    while i < n
        invariant
            i <= n,
            n == a.inner@.len(),
            inner@.len() == i,
            forall|j: int| 0 <= j < i ==> #[trigger] a.inner@[j] != i128::MIN,
            forall|j: int|
                0 <= j < i ==> #[trigger] inner@[j] as int == -(a.inner@[j] as int),
        decreases n - i,
    {
        let x = a.inner[i];
        if x == i128::MIN {
            proof {
                assert(a.inner@[i as int] == i128::MIN);
            }
            return Err(ForwardError::Overflow);
        }
        inner.push(-x);
        i = i + 1;
    }
    let dims = tensor_copy(a).dims;
    Ok(Tensor { inner, dims, scale: Some(out_scale), visibility: None })
}

/// Elementwise logical negation: any nonzero value reads as true.
pub fn tensor_not(a: &Tensor, out_scale: Scale) -> (r: Tensor)
    ensures
        r.dims@ == a.dims@,
        r.inner@.len() == a.inner@.len(),
        r.scale == Some(out_scale),
        forall|i: int|
            0 <= i < r.inner@.len() ==> #[trigger] r.inner@[i] as int == (
            if a.inner@[i] as int == 0 {
                1int
            } else {
                0int
            }),
{
    let n = a.inner.len();
    let mut inner: Vec<i128> = Vec::new();
    let mut i: usize = 0;
    while i < n
        invariant
            i <= n,
            n == a.inner@.len(),
            inner@.len() == i,
            forall|j: int|
                0 <= j < i ==> #[trigger] inner@[j] as int == (if a.inner@[j] as int == 0 {
                    1int
                } else {
                    0int
                }),
        decreases n - i,
    {
        let x = a.inner[i];
        inner.push(if x == 0 { 1 } else { 0 });
        i = i + 1;
    }
    let dims = tensor_copy(a).dims;
    Tensor { inner, dims, scale: Some(out_scale), visibility: None }
}

/// Some intermediate power of some element leaves the machine range.
pub open spec fn pow_overflows(a: Seq<i128>, e: nat) -> bool {
    exists|i: int, j: nat|
        0 <= i < a.len() && 1 <= j <= e && !fits_i128(#[trigger] pow_int(a[i] as int, j))
}

/// Elementwise integer power: fails with `Overflow` exactly when some
/// intermediate power of some element leaves the machine range, and succeeds
/// otherwise.
pub fn tensor_pow(a: &Tensor, e: u32, out_scale: Scale) -> (r: Result<Tensor, ForwardError>)
    ensures
        match r {
            Ok(t) => {
                &&& t.dims@ == a.dims@
                &&& t.inner@.len() == a.inner@.len()
                &&& t.scale == Some(out_scale)
                &&& forall|i: int|
                    0 <= i < t.inner@.len() ==> #[trigger] t.inner@[i] as int == pow_int(
                        a.inner@[i] as int,
                        e as nat,
                    )
            },
            Err(er) => er == ForwardError::Overflow && pow_overflows(a.inner@, e as nat),
        },
        !pow_overflows(a.inner@, e as nat) ==> r is Ok,
{
    let n = a.inner.len();
    let mut inner: Vec<i128> = Vec::new();
    let mut i: usize = 0;
    while i < n
        invariant
            i <= n,
            n == a.inner@.len(),
            inner@.len() == i,
            forall|j: int|
                0 <= j < i ==> #[trigger] inner@[j] as int == pow_int(a.inner@[j] as int, e as nat),
        decreases n - i,
    {
        let x = a.inner[i];
        let mut acc: i128 = 1;
        let mut j: u32 = 0;
        while j < e
            invariant
                j <= e,
                i < n,
                n == a.inner@.len(),
                x == a.inner@[i as int],
                acc as int == pow_int(x as int, j as nat),
            decreases e - j,
        {
            acc = match acc.checked_mul(x) {
                None => {
                    proof {
                        assert(pow_int(x as int, (j + 1) as nat) == x * pow_int(
                            x as int,
                            j as nat,
                        ));
                        assert(acc as int * x as int == x as int * pow_int(x as int, j as nat))
                            by (nonlinear_arith)
                            requires
                                acc as int == pow_int(x as int, j as nat),
                        ;
                        assert(!fits_i128(pow_int(a.inner@[i as int] as int, (j + 1) as nat)));
                    }
                    return Err(ForwardError::Overflow);
                },
                Some(v) => v,
            };
            proof {
                assert(pow_int(x as int, (j + 1) as nat) == x * pow_int(x as int, j as nat));
                assert(acc as int == x * pow_int(x as int, j as nat)) by (nonlinear_arith)
                    requires
                        acc as int == pow_int(x as int, j as nat) * x,
                ;
            }
            j = j + 1;
        }
        inner.push(acc);
        i = i + 1;
    }
    let dims = tensor_copy(a).dims;
    Ok(Tensor { inner, dims, scale: Some(out_scale), visibility: None })
}

/// Elementwise choice: where the condition is nonzero take the second
/// operand, else the third. Fails with `ShapeError` exactly when the three
/// element counts disagree, and succeeds otherwise.
pub fn tensor_iff(c: &Tensor, a: &Tensor, b: &Tensor, out_scale: Scale) -> (r: Result<
    Tensor,
    ForwardError,
>)
    ensures
        match r {
            Ok(t) => {
                &&& c.inner@.len() == a.inner@.len() && a.inner@.len() == b.inner@.len()
                &&& t.dims@ == a.dims@
                &&& t.inner@.len() == a.inner@.len()
                &&& t.scale == Some(out_scale)
                &&& forall|i: int|
                    0 <= i < t.inner@.len() ==> #[trigger] t.inner@[i] == (
                    if c.inner@[i] as int != 0 {
                        a.inner@[i]
                    } else {
                        b.inner@[i]
                    })
            },
            Err(e) => e == ForwardError::Graph(GraphError::ShapeError),
        },
        r is Err <==> (c.inner@.len() != a.inner@.len() || a.inner@.len() != b.inner@.len()),
{
    if c.inner.len() != a.inner.len() || a.inner.len() != b.inner.len() {
        return Err(ForwardError::Graph(GraphError::ShapeError));
    }
    let n = a.inner.len();
    let mut inner: Vec<i128> = Vec::new();
    let mut i: usize = 0;
    while i < n
        invariant
            i <= n,
            n == a.inner@.len(),
            n == b.inner@.len(),
            n == c.inner@.len(),
            inner@.len() == i,
            forall|j: int|
                0 <= j < i ==> #[trigger] inner@[j] == (if c.inner@[j] as int != 0 {
                    a.inner@[j]
                } else {
                    b.inner@[j]
                }),
        decreases n - i,
    {
        let v = if c.inner[i] != 0 {
            a.inner[i]
        } else {
            b.inner[i]
        };
        inner.push(v);
        i = i + 1;
    }
    let dims = tensor_copy(a).dims;
    Ok(Tensor { inner, dims, scale: Some(out_scale), visibility: None })
}

/// Applies a lookup operator to every element: records each operand in the
/// running extremes, refuses out-of-range operands in `SAFE` mode, and maps
/// the operand through the operator's table or exact form.
pub fn tensor_lookup_eval(
    a: &Tensor,
    op: LookupOp,
    out_scale: Scale,
    lr: LookupRange,
    safe: bool,
    tables: &LookupTables,
    minv: &mut i128,
    maxv: &mut i128,
) -> (r: Result<Tensor, ForwardError>)
    requires
        op.wf(),
        lr.min <= lr.max,
    ensures
        match r {
            Ok(t) => {
                &&& t.dims@ == a.dims@
                &&& t.inner@.len() == a.inner@.len()
                &&& t.scale == Some(out_scale)
                &&& forall|i: int|
                    0 <= i < t.inner@.len() ==> #[trigger] t.inner@[i] as int == eval_lookup_spec(
                        op,
                        a.inner@[i] as int,
                        tables.tables@,
                    )
                &&& *final(minv) == fold_min(a.inner@, *old(minv) as int)
                &&& *final(maxv) == fold_max(a.inner@, *old(maxv) as int)
                &&& forall|i: int|
                    0 <= i < a.inner@.len() ==> !eval_lookup_overflows(
                        op,
                        #[trigger] a.inner@[i] as int,
                    )
                &&& (safe ==> forall|i: int|
                    0 <= i < a.inner@.len() ==> lr.min <= #[trigger] a.inner@[i] <= lr.max)
                &&& (safe && tracker_lo(lr) <= *old(minv) <= 0 && 0 <= *old(maxv) <= tracker_hi(
                    lr,
                ) ==> tracker_lo(lr) <= *final(minv) <= 0 && 0 <= *final(maxv) <= tracker_hi(lr))
            },
            Err(e) => match e {
                ForwardError::LookupRange(le) => safe && (le.value < lr.min || le.value > lr.max)
                    && le.min == lr.min && le.max == lr.max && exists|i: int|
                    0 <= i < a.inner@.len() && #[trigger] a.inner@[i] == le.value,
                ForwardError::Overflow => exists|i: int|
                    0 <= i < a.inner@.len() && eval_lookup_overflows(
                        op,
                        #[trigger] a.inner@[i] as int,
                    ),
                _ => false,
            },
        },
        (forall|i: int|
            0 <= i < a.inner@.len() ==> !eval_lookup_overflows(op, #[trigger] a.inner@[i] as int)
                && (safe ==> lr.min <= a.inner@[i] <= lr.max)) ==> r is Ok,
{
    let n = a.inner.len();
    let mut inner: Vec<i128> = Vec::new();
    let mut i: usize = 0;
    while i < n
        invariant
            i <= n,
            n == a.inner@.len(),
            op.wf(),
            lr.min <= lr.max,
            inner@.len() == i,
            forall|j: int|
                0 <= j < i ==> #[trigger] inner@[j] as int == eval_lookup_spec(
                    op,
                    a.inner@[j] as int,
                    tables.tables@,
                ),
            safe ==> forall|j: int| 0 <= j < i ==> lr.min <= #[trigger] a.inner@[j] <= lr.max,
            forall|j: int|
                0 <= j < i ==> !eval_lookup_overflows(op, #[trigger] a.inner@[j] as int),
            *minv == fold_min(a.inner@.take(i as int), *old(minv) as int),
            *maxv == fold_max(a.inner@.take(i as int), *old(maxv) as int),
            safe && tracker_lo(lr) <= *old(minv) <= 0 && 0 <= *old(maxv) <= tracker_hi(lr)
                ==> tracker_lo(lr) <= *minv <= 0 && 0 <= *maxv <= tracker_hi(lr),
        decreases n - i,
    {
        let x = a.inner[i];
        if safe && (x < lr.min || x > lr.max) {
            proof {
                assert(a.inner@[i as int] == x);
            }
            return Err(
                ForwardError::LookupRange(LookupRangeError { value: x, min: lr.min, max: lr.max }),
            );
        }
        if x < *minv {
            *minv = x;
        }
        if x > *maxv {
            *maxv = x;
        }
        proof {
            assert(a.inner@.take(i + 1).drop_last() =~= a.inner@.take(i as int));
            assert(a.inner@.take(i + 1).last() == a.inner@[i as int]);
        }
        let v = match eval_lookup(op, x, tables) {
            Err(e) => {
                proof {
                    assert(eval_lookup_overflows(op, a.inner@[i as int] as int));
                }
                return Err(e);
            },
            Ok(v) => v,
        };
        inner.push(v);
        i = i + 1;
    }
    proof {
        assert(a.inner@.take(n as int) =~= a.inner@);
    }
    let dims = tensor_copy(a).dims;
    Ok(Tensor { inner, dims, scale: Some(out_scale), visibility: None })
}

/// The least value among `init` and the entries of `s`.
pub open spec fn fold_min(s: Seq<i128>, init: int) -> int
    decreases s.len(),
{
    if s.len() == 0 {
        init
    } else {
        let m = fold_min(s.drop_last(), init);
        if (s.last() as int) < m {
            s.last() as int
        } else {
            m
        }
    }
}

/// The greatest value among `init` and the entries of `s`.
pub open spec fn fold_max(s: Seq<i128>, init: int) -> int
    decreases s.len(),
{
    if s.len() == 0 {
        init
    } else {
        let m = fold_max(s.drop_last(), init);
        if (s.last() as int) > m {
            s.last() as int
        } else {
            m
        }
    }
}

/// Bounds of the running-extreme fold: it dominates the start value and
/// every entry, and is one of them.
proof fn lemma_fold_max_bounds(s: Seq<i128>, init: int)
    ensures
        fold_max(s, init) >= init,
        forall|i: int| 0 <= i < s.len() ==> fold_max(s, init) >= #[trigger] s[i],
        fold_max(s, init) == init || exists|i: int| 0 <= i < s.len() && fold_max(s, init) == #[trigger] s[i],
    decreases s.len(),
{
    if s.len() > 0 {
        lemma_fold_max_bounds(s.drop_last(), init);
        assert forall|i: int| 0 <= i < s.len() implies fold_max(s, init) >= s[i] by {
            if i < s.len() - 1 {
                assert(s.drop_last()[i] == s[i]);
            }
        }
    }
}

/// Bounds of the running-extreme fold, least side.
proof fn lemma_fold_min_bounds(s: Seq<i128>, init: int)
    ensures
        fold_min(s, init) <= init,
        forall|i: int| 0 <= i < s.len() ==> fold_min(s, init) <= #[trigger] s[i],
        fold_min(s, init) == init || exists|i: int| 0 <= i < s.len() && fold_min(s, init) == #[trigger] s[i],
    decreases s.len(),
{
    if s.len() > 0 {
        lemma_fold_min_bounds(s.drop_last(), init);
        assert forall|i: int| 0 <= i < s.len() implies fold_min(s, init) <= s[i] by {
            if i < s.len() - 1 {
                assert(s.drop_last()[i] == s[i]);
            }
        }
    }
}

/// Law: merging the lookup-input extremes of two execution branches is
/// insensitive to order — folding one branch's operands after the other
/// equals folding their concatenation, in either order. Partial trackers
/// from concurrent branches therefore merge to the same extremes whatever
/// the merge order.
pub proof fn lemma_tracker_merge_any_order(s1: Seq<i128>, s2: Seq<i128>, init: int)
    ensures
        fold_max(s1 + s2, init) == fold_max(s2, fold_max(s1, init)),
        fold_max(s1 + s2, init) == fold_max(s2 + s1, init),
        fold_min(s1 + s2, init) == fold_min(s2, fold_min(s1, init)),
        fold_min(s1 + s2, init) == fold_min(s2 + s1, init),
    decreases s2.len(),
{
    if s2.len() == 0 {
        assert(s1 + s2 =~= s1);
        assert(s2 + s1 =~= s1);
        lemma_fold_max_bounds(s1, init);
        lemma_fold_min_bounds(s1, init);
    } else {
        lemma_tracker_merge_any_order(s1, s2.drop_last(), init);
        assert((s1 + s2).drop_last() =~= s1 + s2.drop_last());
        assert((s1 + s2).last() == s2.last());
        // the commuted side, by mutual domination
        let l = fold_max(s1 + s2, init);
        let r = fold_max(s2 + s1, init);
        lemma_fold_max_bounds(s1 + s2, init);
        lemma_fold_max_bounds(s2 + s1, init);
        assert forall|i: int| 0 <= i < (s2 + s1).len() implies r >= (s1 + s2)[i] by {
            if i < s1.len() {
                assert((s1 + s2)[i] == (s2 + s1)[s2.len() + i]);
            } else {
                assert((s1 + s2)[i] == (s2 + s1)[i - s1.len()]);
            }
        }
        assert forall|i: int| 0 <= i < (s1 + s2).len() implies l >= (s2 + s1)[i] by {
            if i < s2.len() {
                assert((s2 + s1)[i] == (s1 + s2)[s1.len() + i]);
            } else {
                assert((s2 + s1)[i] == (s1 + s2)[i - s2.len()]);
            }
        }
        assert(l == r);
        let lm = fold_min(s1 + s2, init);
        let rm = fold_min(s2 + s1, init);
        lemma_fold_min_bounds(s1 + s2, init);
        lemma_fold_min_bounds(s2 + s1, init);
        assert forall|i: int| 0 <= i < (s2 + s1).len() implies rm <= (s1 + s2)[i] by {
            if i < s1.len() {
                assert((s1 + s2)[i] == (s2 + s1)[s2.len() + i]);
            } else {
                assert((s1 + s2)[i] == (s2 + s1)[i - s1.len()]);
            }
        }
        assert forall|i: int| 0 <= i < (s1 + s2).len() implies lm <= (s2 + s1)[i] by {
            if i < s2.len() {
                assert((s2 + s1)[i] == (s1 + s2)[s1.len() + i]);
            } else {
                assert((s2 + s1)[i] == (s1 + s2)[i - s2.len()]);
            }
        }
        assert(lm == rm);
    }
}

/// The iteration count a `Stacked` mapping asks for: the number of chunks of
/// size `chunk` along `axis`, or nothing for an ill-formed mapping.
pub open spec fn mapping_votes(m: InputMapping, d: Seq<usize>) -> Option<int> {
    match m {
        InputMapping::Stacked { axis, chunk } => if chunk > 0 && (axis as int) < d.len() {
            Some((d[axis as int] + chunk - 1) as int / chunk as int)
        } else {
            None
        },
        _ => None,
    }
}

/// A `Stacked` mapping that cannot be interpreted against its shape.
pub open spec fn mapping_invalid(m: InputMapping, d: Seq<usize>) -> bool {
    match m {
        InputMapping::Stacked { axis, chunk } => chunk == 0 || (axis as int) >= d.len(),
        _ => false,
    }
}

/// The number of iterations a subgraph runs for: the chunk count of its
/// `Stacked` inputs, which must all agree (`ShapeError` otherwise), or one
/// where no input is stacked.
pub fn subgraph_iterations(mappings: &Vec<InputMapping>, dims: &Vec<Vec<usize>>) -> (r: Result<
    usize,
    GraphError,
>)
    requires
        mappings@.len() == dims@.len(),
    ensures
        match r {
            Ok(c) => {
                &&& forall|k: int|
                    0 <= k < mappings@.len() ==> (#[trigger] mapping_votes(
                        mappings@[k],
                        dims@[k]@,
                    ) matches Some(v) ==> v == c as int)
                &&& ((exists|k: int|
                    0 <= k < mappings@.len() && (#[trigger] mapping_votes(
                        mappings@[k],
                        dims@[k]@,
                    )) is Some) || c == 1)
                &&& forall|k: int|
                    0 <= k < mappings@.len() ==> !mapping_invalid(
                        #[trigger] mappings@[k],
                        dims@[k]@,
                    )
            },
            Err(e) => e == GraphError::ShapeError && (exists|k: int|
                0 <= k < mappings@.len() && mapping_invalid(#[trigger] mappings@[k], dims@[k]@))
                || (exists|k1: int, k2: int|
                0 <= k1 < mappings@.len() && 0 <= k2 < mappings@.len() && (#[trigger] mapping_votes(
                    mappings@[k1],
                    dims@[k1]@,
                ) matches Some(v1) && #[trigger] mapping_votes(
                    mappings@[k2],
                    dims@[k2]@,
                ) matches Some(v2) && v1 != v2)),
        },
{
    let n = mappings.len();
    let mut agreed: Option<usize> = None;
    let ghost mut witness_k: int = 0;
    let mut i: usize = 0;
    while i < n
        invariant
            i <= n,
            n == mappings@.len(),
            n == dims@.len(),
            forall|k: int| 0 <= k < i ==> !mapping_invalid(#[trigger] mappings@[k], dims@[k]@),
            match agreed {
                Some(c) => 0 <= witness_k < i && mapping_votes(
                    mappings@[witness_k],
                    dims@[witness_k]@,
                ) == Some(c as int) && forall|k: int|
                    0 <= k < i ==> (#[trigger] mapping_votes(
                        mappings@[k],
                        dims@[k]@,
                    ) matches Some(v) ==> v == c as int),
                None => forall|k: int|
                    0 <= k < i ==> (#[trigger] mapping_votes(mappings@[k], dims@[k]@)) is None,
            },
        decreases n - i,
    {
        match &mappings[i] {
            InputMapping::Stacked { axis, chunk } => {
                let d = &dims[i];
                if *chunk == 0 || *axis >= d.len() {
                    proof {
                        assert(mapping_invalid(mappings@[i as int], dims@[i as int]@));
                    }
                    return Err(GraphError::ShapeError);
                }
                let da = d[*axis];
                let c128 = ((da as u128) + ((*chunk - 1) as u128)) / (*chunk as u128);
                proof {
                    if da == 0 {
                        assert((da as int + (*chunk as int) - 1) / (*chunk as int) == 0) by {
                            vstd::arithmetic::div_mod::lemma_basic_div(
                                da as int + (*chunk as int) - 1,
                                *chunk as int,
                            );
                        }
                    } else {
                        assert((da as int + (*chunk as int) - 1) <= (da as int) * (
                        *chunk as int)) by (nonlinear_arith)
                            requires
                                da >= 1,
                                *chunk >= 1,
                        ;
                        vstd::arithmetic::div_mod::lemma_div_is_ordered(
                            da as int + (*chunk as int) - 1,
                            (da as int) * (*chunk as int),
                            *chunk as int,
                        );
                        assert((da as int) * (*chunk as int) == (*chunk as int) * (da as int))
                            by (nonlinear_arith);
                        vstd::arithmetic::div_mod::lemma_div_multiples_vanish(
                            da as int,
                            *chunk as int,
                        );
                    }
                }
                let c = c128 as usize;
                proof {
                    assert(mapping_votes(mappings@[i as int], dims@[i as int]@) == Some(
                        c as int,
                    ));
                }
                match agreed {
                    None => {
                        agreed = Some(c);
                        proof {
                            witness_k = i as int;
                        }
                    },
                    Some(c0) => {
                        if c0 != c {
                            return Err(GraphError::ShapeError);
                        }
                    },
                }
            },
            _ => {
                proof {
                    assert(mapping_votes(mappings@[i as int], dims@[i as int]@) is None);
                }
            },
        }
        i = i + 1;
    }
    match agreed {
        Some(c) => Ok(c),
        None => Ok(1),
    }
}

/// The polynomial operators the engine evaluates.
pub open spec fn poly_engine_evaluable(p: PolyOp) -> bool {
    match p {
        PolyOp::Identity => true,
        PolyOp::Add => true,
        PolyOp::Sub => true,
        PolyOp::Mult => true,
        PolyOp::And => true,
        PolyOp::Or => true,
        PolyOp::Xor => true,
        PolyOp::Not => true,
        PolyOp::Neg => true,
        PolyOp::Pow(_) => true,
        PolyOp::Iff => true,
        PolyOp::Reshape(_) => true,
        PolyOp::Flatten(_) => true,
        _ => false,
    }
}

/// The polynomial operators whose evaluation can leave the machine range.
pub open spec fn poly_can_overflow(p: PolyOp) -> bool {
    match p {
        PolyOp::Add => true,
        PolyOp::Sub => true,
        PolyOp::Mult => true,
        PolyOp::Neg => true,
        PolyOp::Pow(_) => true,
        _ => false,
    }
}

/// A node whose evaluation can leave the machine range: arithmetic
/// polynomial operators, and the lookup family the engine computes with
/// products.
pub open spec fn node_can_overflow(nt: NodeType) -> bool {
    match nt {
        NodeType::SubGraph { .. } => false,
        NodeType::Node(n) => match n.op {
            SupportedOp::Linear(p) => poly_can_overflow(p),
            SupportedOp::Nonlinear(l) => match l {
                LookupOp::Abs => true,
                LookupOp::GreaterThan { .. } => true,
                LookupOp::LessThan { .. } => true,
                LookupOp::GreaterThanEqual { .. } => true,
                LookupOp::LessThanEqual { .. } => true,
                LookupOp::Div { .. } => true,
                LookupOp::LeakyReLU { .. } => true,
                _ => false,
            },
            _ => false,
        },
    }
}

/// A node the engine refuses by name: a nested model, an unknown operator,
/// a nonlinear operator with out-of-range parameters, or a polynomial
/// operator outside the evaluated family.
pub open spec fn node_not_executable(nt: NodeType) -> bool {
    match nt {
        NodeType::SubGraph { .. } => true,
        NodeType::Node(n) => match n.op {
            SupportedOp::Unknown(_) => true,
            SupportedOp::Nonlinear(l) => !l.wf(),
            SupportedOp::Linear(p) => !poly_engine_evaluable(p),
            _ => false,
        },
    }
}

/// The spec-level view of a tensor: its values, shape and scale.
#[verifier::ext_equal]
pub struct TensorV {
    pub inner: Seq<i128>,
    pub dims: Seq<usize>,
    pub scale: Option<Scale>,
}

/// The view of a tensor.
pub open spec fn tv(t: Tensor) -> TensorV {
    TensorV { inner: t.inner@, dims: t.dims@, scale: t.scale }
}

/// The views of a tensor list.
pub open spec fn tensors_view(s: Seq<Tensor>) -> Seq<TensorV> {
    s.map_values(|t: Tensor| tv(t))
}

/// The views of the engine's per-position value store.
pub open spec fn state_view(s: Seq<Vec<Tensor>>) -> Seq<Seq<TensorV>> {
    s.map_values(|row: Vec<Tensor>| tensors_view(row@))
}

/// The first place of `x` in a list, or -1.
pub open spec fn first_in(s: Seq<usize>, x: usize) -> int
    decreases s.len(),
{
    if s.len() == 0 {
        -1
    } else if s[0] == x {
        0
    } else {
        let r = first_in(s.drop_first(), x);
        if r < 0 {
            -1
        } else {
            r + 1
        }
    }
}

/// The first place of `x` is the first position holding it.
proof fn lemma_first_in_at(s: Seq<usize>, x: usize, k: int)
    requires
        0 <= k < s.len(),
        s[k] == x,
        forall|q: int| 0 <= q < k ==> s[q] != x,
    ensures
        first_in(s, x) == k,
    decreases s.len(),
{
    if k > 0 {
        lemma_first_in_at(s.drop_first(), x, k - 1);
    }
}

/// The spec value of an elementwise two-operand operator.
pub open spec fn sp_binop_val(a: TensorV, b: TensorV, k: BinKind, s: Scale) -> TensorV {
    TensorV {
        inner: Seq::new(
            a.inner.len(),
            |i: int| bin_spec(k, a.inner[i] as int, b.inner[i] as int) as i128,
        ),
        dims: a.dims,
        scale: Some(s),
    }
}

/// The spec value of the rebase step applied to a fresh product at scale
/// `raw`.
pub open spec fn sp_rebase_val(t: TensorV, raw: Scale, input_scale: Scale, multiplier: u32) -> TensorV {
    if should_rebase_spec(raw as int, input_scale as int, multiplier as int) && raw > input_scale {
        TensorV {
            inner: Seq::new(
                t.inner.len(),
                |i: int| crate::scale::rescale_spec(
                    t.inner[i] as int,
                    raw as int,
                    input_scale as int,
                ) as i128,
            ),
            dims: t.dims,
            scale: Some(input_scale),
        }
    } else {
        TensorV { inner: t.inner, dims: t.dims, scale: Some(raw) }
    }
}

/// The scale an operand carries, or the configured input scale.
pub open spec fn scale_or_default(t: TensorV, input_scale: Scale) -> Scale {
    match t.scale {
        Some(sc) => sc,
        None => input_scale,
    }
}

/// The spec value of one polynomial operator over its gathered operands.
pub open spec fn sp_poly_val(
    args: Seq<TensorV>,
    p: PolyOp,
    out_scale: Scale,
    input_scale: Scale,
    multiplier: u32,
) -> TensorV {
    match p {
        PolyOp::Identity => TensorV { inner: args[0].inner, dims: args[0].dims, scale: Some(out_scale) },
        PolyOp::Add => sp_binop_val(args[0], args[1], BinKind::Add, out_scale),
        PolyOp::Sub => sp_binop_val(args[0], args[1], BinKind::Sub, out_scale),
        PolyOp::Mult => {
            let raw = (scale_or_default(args[0], input_scale)
                + scale_or_default(args[1], input_scale)) as Scale;
            sp_rebase_val(sp_binop_val(args[0], args[1], BinKind::Mult, raw), raw, input_scale, multiplier)
        },
        PolyOp::And => sp_binop_val(args[0], args[1], BinKind::And, out_scale),
        PolyOp::Or => sp_binop_val(args[0], args[1], BinKind::Or, out_scale),
        PolyOp::Xor => sp_binop_val(args[0], args[1], BinKind::Xor, out_scale),
        PolyOp::Not => TensorV {
            inner: Seq::new(
                args[0].inner.len(),
                |i: int| if args[0].inner[i] as int == 0 {
                    1i128
                } else {
                    0i128
                },
            ),
            dims: args[0].dims,
            scale: Some(out_scale),
        },
        PolyOp::Neg => TensorV {
            inner: Seq::new(args[0].inner.len(), |i: int| (-(args[0].inner[i] as int)) as i128),
            dims: args[0].dims,
            scale: Some(out_scale),
        },
        PolyOp::Pow(e) => TensorV {
            inner: Seq::new(
                args[0].inner.len(),
                |i: int| pow_int(args[0].inner[i] as int, e as nat) as i128,
            ),
            dims: args[0].dims,
            scale: Some(out_scale),
        },
        PolyOp::Iff => TensorV {
            inner: Seq::new(
                args[1].inner.len(),
                |i: int| if args[0].inner[i] as int != 0 {
                    args[1].inner[i]
                } else {
                    args[2].inner[i]
                },
            ),
            dims: args[1].dims,
            scale: Some(out_scale),
        },
        PolyOp::Reshape(shape) => TensorV {
            inner: args[0].inner,
            dims: shape@,
            scale: Some(out_scale),
        },
        PolyOp::Flatten(shape) => TensorV {
            inner: args[0].inner,
            dims: shape@,
            scale: Some(out_scale),
        },
        _ => args[0],
    }
}

/// The operands a node reads, gathered from the value store.
pub open spec fn sp_args(g: ParsedNodes, st: Seq<Seq<TensorV>>, outlets: Seq<Outlet>) -> Seq<
    TensorV,
> {
    Seq::new(outlets.len(), |k: int| st[g.pos_of(outlets[k].0)][outlets[k].1 as int])
}

/// The spec value of one node over the value store: what the engine's
/// dispatch computes for it when no error interrupts the run.
pub open spec fn sp_node_val(
    g: ParsedNodes,
    st: Seq<Seq<TensorV>>,
    pos: int,
    inputs: Seq<TensorV>,
    input_scale: Scale,
    multiplier: u32,
    tables: Seq<LookupTable>,
) -> TensorV {
    match g.nodes@[pos].1 {
        NodeType::Node(n) => match n.op {
            SupportedOp::Input => {
                let f = first_in(g.inputs@, g.nodes@[pos].0);
                TensorV {
                    inner: inputs[f].inner,
                    dims: inputs[f].dims,
                    scale: Some(input_scale),
                }
            },
            SupportedOp::Constant(t) => tv(t),
            SupportedOp::Nonlinear(l) => {
                let a = sp_args(g, st, n.inputs@)[0];
                TensorV {
                    inner: Seq::new(
                        a.inner.len(),
                        |i: int| eval_lookup_spec(l, a.inner[i] as int, tables) as i128,
                    ),
                    dims: a.dims,
                    scale: Some(n.out_scale),
                }
            },
            SupportedOp::Linear(p) => sp_poly_val(
                sp_args(g, st, n.inputs@),
                p,
                n.out_scale,
                input_scale,
                multiplier,
            ),
            SupportedOp::Unknown(_) => TensorV { inner: Seq::empty(), dims: Seq::empty(), scale: None },
        },
        NodeType::SubGraph { .. } => TensorV { inner: Seq::empty(), dims: Seq::empty(), scale: None },
    }
}

/// The value store after evaluating the first `p` places of the order.
pub open spec fn sp_exec_state(
    g: ParsedNodes,
    ord: Seq<usize>,
    p: int,
    inputs: Seq<TensorV>,
    input_scale: Scale,
    multiplier: u32,
    tables: Seq<LookupTable>,
) -> Seq<Seq<TensorV>>
    decreases p,
{
    if p <= 0 {
        Seq::new(g.nodes@.len(), |i: int| Seq::<TensorV>::empty())
    } else {
        let prev = sp_exec_state(g, ord, p - 1, inputs, input_scale, multiplier, tables);
        let pos = g.pos_of(ord[p - 1]);
        prev.update(pos, seq![sp_node_val(g, prev, pos, inputs, input_scale, multiplier, tables)])
    }
}

/// The operands fed to lookup tables by the first `p` places of the order,
/// in execution order.
pub open spec fn sp_observed(
    g: ParsedNodes,
    ord: Seq<usize>,
    p: int,
    inputs: Seq<TensorV>,
    input_scale: Scale,
    multiplier: u32,
    tables: Seq<LookupTable>,
) -> Seq<i128>
    decreases p,
{
    if p <= 0 {
        Seq::empty()
    } else {
        let prev_obs = sp_observed(g, ord, p - 1, inputs, input_scale, multiplier, tables);
        let prev = sp_exec_state(g, ord, p - 1, inputs, input_scale, multiplier, tables);
        let pos = g.pos_of(ord[p - 1]);
        match g.nodes@[pos].1 {
            NodeType::Node(n) => match n.op {
                SupportedOp::Nonlinear(_) => prev_obs + sp_args(g, prev, n.inputs@)[0].inner,
                _ => prev_obs,
            },
            NodeType::SubGraph { .. } => prev_obs,
        }
    }
}

/// Fetches a copy of the tensor an outlet produced earlier in the run.
fn fetch_value(state: &Vec<Vec<Tensor>>, pos: usize, slot: usize) -> (r: Result<
    Tensor,
    ForwardError,
>)
    ensures
        match r {
            Ok(t) => pos < state@.len() && slot < state@[pos as int]@.len() && t.inner@
                == state@[pos as int]@[slot as int].inner@ && t.dims@ == state@[
                pos as int
            ]@[slot as int].dims@ && t.scale == state@[pos as int]@[slot as int].scale && tv(t)
                == state_view(state@)[pos as int][slot as int],
            Err(e) => e matches ForwardError::Graph(GraphError::DanglingOutlet { .. }),
        },
{
    if pos < state.len() {
        let row = &state[pos];
        if slot < row.len() {
            let t = tensor_copy(&row[slot]);
            proof {
                assert(state_view(state@)[pos as int] == tensors_view(state@[pos as int]@));
                assert(tensors_view(state@[pos as int]@)[slot as int] == tv(
                    state@[pos as int]@[slot as int],
                ));
                assert(tv(t) =~= state_view(state@)[pos as int][slot as int]);
            }
            return Ok(t);
        }
    }
    Err(ForwardError::Graph(GraphError::DanglingOutlet { node: pos, slot }))
}

/// Executes the graph on the given quantized inputs: walks the topological
/// order, applies each node's operator in fixed-point integer arithmetic,
/// tracks the extremes fed to lookup tables, and in `SAFE` mode refuses any
/// lookup operand outside the configured range (in `UNSAFE` mode only the
/// trackers reflect it). Nested subgraph nodes are not executed: this is a
/// scope limit of the engine against the subgraph step of the witness
/// pipeline (iteration counts, state threading, output assembly); the
/// iteration-count rule itself is `subgraph_iterations`.
/// The committed artifacts (`processed_*`) and the readable renderings come
/// back empty; they are attached by later steps.
///
/// The contract records the inputs verbatim, ties the trackers to the
/// extremes of the sequence of operands actually fed to lookup tables (all
/// within the configured range in `SAFE` mode), and conditions each error:
/// a lookup-range failure carries an out-of-range operand and happens in
/// `SAFE` mode only, an unsupported-operator failure names a node the engine
/// refuses, an overflow failure requires an operator that can overflow, and
/// a cycle failure comes with a set of mutually dependent nodes. The output
/// values themselves are fixed by the per-operator functions this engine
/// dispatches to (each carries an exact elementwise contract); the
/// node-by-node dataflow of this dispatch loop is checked by tests, not by
/// the contract.
pub fn execute(
    model: &Model,
    inputs: &Vec<Tensor>,
    run_args: &RunArgs,
    check_mode: CheckMode,
    tables: &LookupTables,
) -> (r: Result<GraphWitness, ForwardError>)
    requires
        run_args.wf(),
    ensures
        ({
            let lr = run_args.lookup_range;
            match r {
                Ok(w) => {
                    &&& w.inputs@.len() == inputs@.len()
                    &&& inputs@.len() == model.graph.inputs@.len()
                    &&& forall|j: int|
                        0 <= j < inputs@.len() ==> (#[trigger] w.inputs@[j])@ == inputs@[j].inner@
                    &&& w.outputs@.len() == model.graph.outputs@.len()
                    &&& w.pretty_elements is None
                    &&& w.processed_inputs is None
                    &&& w.processed_params is None
                    &&& w.processed_outputs is None
                    &&& (check_mode == CheckMode::SAFE ==> tracker_lo(lr) <= w.min_lookup_inputs
                        <= 0 && 0 <= w.max_lookup_inputs <= tracker_hi(lr))
                    &&& exists|ord: Seq<usize>|
                        #![trigger is_topo_order(model.graph, ord)]
                        is_topo_order(model.graph, ord) && ({
                            let g2 = model.graph;
                            let np = ord.len() as int;
                            let iv = tensors_view(inputs@);
                            let st = sp_exec_state(
                                g2,
                                ord,
                                np,
                                iv,
                                run_args.input_scale,
                                run_args.scale_rebase_multiplier,
                                tables.tables@,
                            );
                            let obs = sp_observed(
                                g2,
                                ord,
                                np,
                                iv,
                                run_args.input_scale,
                                run_args.scale_rebase_multiplier,
                                tables.tables@,
                            );
                            &&& forall|j: int|
                                0 <= j < g2.outputs@.len() ==> (#[trigger] w.outputs@[j])@ == st[
                                    g2.pos_of(g2.outputs@[j].0)
                                ][g2.outputs@[j].1 as int].inner
                            &&& w.min_lookup_inputs as int == fold_min(obs, 0)
                            &&& w.max_lookup_inputs as int == fold_max(obs, 0)
                            &&& (check_mode == CheckMode::SAFE ==> forall|i: int|
                                0 <= i < obs.len() ==> lr.min <= #[trigger] obs[i] <= lr.max)
                        })
                },
                Err(e) => match e {
                    ForwardError::LookupRange(le) => check_mode == CheckMode::SAFE && (le.value
                        < lr.min || le.value > lr.max) && le.min == lr.min && le.max == lr.max,
                    ForwardError::Unsupported(_) => exists|ii: int|
                        0 <= ii < model.graph.nodes@.len() && node_not_executable(
                            #[trigger] model.graph.nodes@[ii].1,
                        ),
                    ForwardError::Overflow => exists|ii: int|
                        0 <= ii < model.graph.nodes@.len() && node_can_overflow(
                            #[trigger] model.graph.nodes@[ii].1,
                        ),
                    ForwardError::Graph(ge) => ge matches GraphError::Cycle
                        ==> model.graph.indices_strictly_sorted() && model.graph.all_deps_ok()
                        && exists|w: Set<usize>| crate::model::cycle_witness(model.graph, w),
                    _ => true,
                },
            }
        }),
        // a floor under the error clauses: the engine owes success at least
        // on the trivially flawless input
        model.graph.nodes@.len() == 0 && model.graph.inputs@.len() == 0
            && model.graph.outputs@.len() == 0 && inputs@.len() == 0 ==> r is Ok,
{
    let g = &model.graph;
    let lr = run_args.lookup_range;
    let safe = match check_mode {
        CheckMode::SAFE => true,
        CheckMode::UNSAFE => false,
    };
    let ord = match g.topological_order() {
        Err(e) => {
            return Err(ForwardError::Graph(e));
        },
        Ok(o) => o,
    };
    if inputs.len() != g.inputs.len() {
        return Err(ForwardError::Graph(GraphError::ShapeError));
    }
    // record the inputs verbatim
    let n_in = g.inputs.len();
    let mut win: Vec<Vec<i128>> = Vec::new();
    let mut j: usize = 0;
    while j < n_in
        invariant
            j <= n_in,
            n_in == inputs@.len(),
            win@.len() == j,
            forall|t: int| 0 <= t < j ==> (#[trigger] win@[t])@ == inputs@[t].inner@,
        decreases n_in - j,
    {
        let t = tensor_copy(&inputs[j]);
        win.push(t.inner);
        j = j + 1;
    }
    let n = g.nodes.len();
    let mut state: Vec<Vec<Tensor>> = Vec::new();
    let mut si: usize = 0;
    while si < n
        invariant
            si <= n,
            state@.len() == si,
            forall|j: int| 0 <= j < si ==> (#[trigger] state@[j])@.len() == 0,
        decreases n - si,
    {
        state.push(Vec::new());
        si = si + 1;
    }
    let mut minv: i128 = 0;
    let mut maxv: i128 = 0;
    let ghost mut observed: Seq<i128> = Seq::empty();
    let np = ord.len();
    let mut p: usize = 0;
    proof {
        assert(state_view(state@) =~= sp_exec_state(
            *g,
            ord@,
            0,
            tensors_view(inputs@),
            run_args.input_scale,
            run_args.scale_rebase_multiplier,
            tables.tables@,
        )) by {
            assert forall|i: int| 0 <= i < state@.len() implies state_view(state@)[i]
                =~= Seq::<TensorV>::empty() by {
                assert(state_view(state@)[i] == tensors_view(state@[i]@));
                assert(state@[i]@.len() == 0);
            }
        }
    }
    while p < np
        invariant
            p <= np,
            np == ord@.len(),
            g == &model.graph,
            g.indices_strictly_sorted(),
            state@.len() == g.nodes@.len(),
            run_args.wf(),
            lr == run_args.lookup_range,
            safe == (check_mode == CheckMode::SAFE),
            is_topo_order(*g, ord@),
            safe ==> tracker_lo(lr) <= minv <= 0 && 0 <= maxv <= tracker_hi(lr),
            minv as int == fold_min(observed, 0),
            maxv as int == fold_max(observed, 0),
            safe ==> forall|t: int| 0 <= t < observed.len() ==> lr.min <= #[trigger] observed[t]
                <= lr.max,
            state_view(state@) == sp_exec_state(
                *g,
                ord@,
                p as int,
                tensors_view(inputs@),
                run_args.input_scale,
                run_args.scale_rebase_multiplier,
                tables.tables@,
            ),
            observed == sp_observed(
                *g,
                ord@,
                p as int,
                tensors_view(inputs@),
                run_args.input_scale,
                run_args.scale_rebase_multiplier,
                tables.tables@,
            ),
            win@.len() == inputs@.len(),
            inputs@.len() == g.inputs@.len(),
            forall|t: int| 0 <= t < win@.len() ==> (#[trigger] win@[t])@ == inputs@[t].inner@,
        decreases np - p,
    {
        let idx = ord[p];
        proof {
            assert(g.has_node(ord@[p as int]));
        }
        let pos = match g.find_pos_pub(idx) {
            None => {
                proof {
                    assert(false);
                }
                return Err(ForwardError::Graph(GraphError::ShapeError));
            },
            Some(q) => q,
        };
        let ghost spv = sp_node_val(
            *g,
            state_view(state@),
            pos as int,
            tensors_view(inputs@),
            run_args.input_scale,
            run_args.scale_rebase_multiplier,
            tables.tables@,
        );
        let node_result: Result<Tensor, ForwardError> = match &g.nodes[pos].1 {
            NodeType::SubGraph { .. } => {
                proof {
                    assert(node_not_executable(g.nodes@[pos as int].1));
                }
                return Err(
                    ForwardError::Unsupported(
                        UnsupportedOpError { name: "nested subgraph execution".to_owned() },
                    ),
                );
            },
            NodeType::Node(nd) => {
                let out_scale = nd.out_scale;
                match &nd.op {
                    SupportedOp::Input => {
                        // the j-th graph input feeds this node
                        let mut found: Option<usize> = None;
                        let mut q: usize = 0;
                        let gi = g.inputs.len();
                        while q < gi
                            invariant
                                q <= gi,
                                gi == g.inputs@.len(),
                                match found {
                                    Some(f) => f < gi && g.inputs@[f as int] == idx && forall|
                                        qq: int,
                                    |
                                        0 <= qq < f ==> g.inputs@[qq] != idx,
                                    None => forall|qq: int| 0 <= qq < q ==> g.inputs@[qq] != idx,
                                },
                            decreases gi - q,
                        {
                            if found.is_none() && g.inputs[q] == idx {
                                found = Some(q);
                            }
                            q = q + 1;
                        }
                        match found {
                            None => Err(ForwardError::Graph(GraphError::ShapeError)),
                            Some(f) => {
                                if f < inputs.len() {
                                    let mut t = tensor_copy(&inputs[f]);
                                    t.scale = Some(run_args.input_scale);
                                    proof {
                                        lemma_first_in_at(g.inputs@, idx, f as int);
                                        assert(tensors_view(inputs@)[f as int] == tv(
                                            inputs@[f as int],
                                        ));
                                        assert(tv(t) =~= spv);
                                    }
                                    Ok(t)
                                } else {
                                    Err(ForwardError::Graph(GraphError::ShapeError))
                                }
                            },
                        }
                    },
                    SupportedOp::Constant(t) => {
                        let t2 = tensor_copy(t);
                        proof {
                            assert(tv(t2) =~= spv);
                        }
                        Ok(t2)
                    },
                    SupportedOp::Nonlinear(l) => {
                        if !lookup_op_wf_check(l) {
                            proof {
                                assert(node_not_executable(g.nodes@[pos as int].1));
                            }
                            Err(
                                ForwardError::Unsupported(
                                    UnsupportedOpError {
                                        name: "nonlinear operator with out-of-range parameters".to_owned(),
                                    },
                                ),
                            )
                        } else if nd.inputs.len() != 1 {
                            Err(ForwardError::Graph(GraphError::ShapeError))
                        } else {
                            let o = nd.inputs[0];
                            match g.find_pos_pub(o.0) {
                                None => Err(
                                    ForwardError::Graph(
                                        GraphError::DanglingOutlet { node: o.0, slot: o.1 },
                                    ),
                                ),
                                Some(p2) => {
                                    match fetch_value(&state, p2, o.1) {
                                        Err(e) => Err(e),
                                        Ok(a) => {
                                            proof {
                                                assert(sp_args(
                                                    *g,
                                                    state_view(state@),
                                                    nd.inputs@,
                                                )[0] == state_view(state@)[g.pos_of(
                                                    nd.inputs@[0].0,
                                                )][nd.inputs@[0].1 as int]);
                                                assert(tv(a) == sp_args(
                                                    *g,
                                                    state_view(state@),
                                                    nd.inputs@,
                                                )[0]);
                                            }
                                            let lr_r = tensor_lookup_eval(
                                                &a,
                                                *l,
                                                out_scale,
                                                lr,
                                                safe,
                                                tables,
                                                &mut minv,
                                                &mut maxv,
                                            );
                                            proof {
                                                if lr_r is Ok {
                                                    lemma_tracker_merge_any_order(
                                                        observed,
                                                        a.inner@,
                                                        0,
                                                    );
                                                    observed = observed + a.inner@;
                                                }
                                                match &lr_r {
                                                    Ok(t3) => {
                                                        assert(tv(*t3) =~= spv);
                                                    },
                                                    Err(_) => {},
                                                }
                                            }
                                            lr_r
                                        },
                                    }
                                },
                            }
                        }
                    },
                    SupportedOp::Linear(pop) => {
                        let rr = eval_poly_node(g, &state, &nd.inputs, pop, out_scale, run_args);
                        proof {
                            if rr matches Err(ForwardError::Unsupported(_)) {
                                assert(node_not_executable(g.nodes@[pos as int].1));
                            }
                            if rr matches Err(ForwardError::Overflow) {
                                assert(node_can_overflow(g.nodes@[pos as int].1));
                            }
                            match &rr {
                                Ok(t3) => {
                                    assert(tv(*t3) == spv);
                                },
                                Err(_) => {},
                            }
                        }
                        rr
                    },
                    SupportedOp::Unknown(name) => {
                        proof {
                            assert(node_not_executable(g.nodes@[pos as int].1));
                        }
                        let mut s2 = String::new();
                        s2.append(name.as_str());
                        Err(ForwardError::Unsupported(UnsupportedOpError { name: s2 }))
                    },
                }
            },
        };
        let out = match node_result {
            Err(e) => {
                proof {
                    if e matches ForwardError::Unsupported(_) {
                        assert(exists|ii: int|
                            0 <= ii < g.nodes@.len() && node_not_executable(
                                #[trigger] g.nodes@[ii].1,
                            ));
                    }
                    if (e matches ForwardError::Overflow) {
                        assert(exists|ii: int|
                            0 <= ii < g.nodes@.len() && node_can_overflow(
                                #[trigger] g.nodes@[ii].1,
                            ));
                    }
                }
                return Err(e);
            },
            Ok(t) => t,
        };
        proof {
            assert(tv(out) == spv);
        }
        let ghost prev_state = state@;
        let mut row: Vec<Tensor> = Vec::new();
        row.push(out);
        state.set(pos, row);
        proof {
            let iv = tensors_view(inputs@);
            let isc = run_args.input_scale;
            let mul = run_args.scale_rebase_multiplier;
            let tb = tables.tables@;
            let prev = sp_exec_state(*g, ord@, p as int, iv, isc, mul, tb);
            assert(pos as int == g.pos_of(idx));
            assert(ord@[p as int] == idx);
            assert(state_view(state@) =~= prev.update(pos as int, seq![tv(out)])) by {
                assert forall|i: int| 0 <= i < state@.len() implies state_view(state@)[i]
                    =~= prev.update(pos as int, seq![tv(out)])[i] by {
                    assert(state_view(state@)[i] == tensors_view(state@[i]@));
                    if i == pos as int {
                        assert(state@[i]@ =~= seq![out]);
                        assert(tensors_view(seq![out]) =~= seq![tv(out)]);
                    } else {
                        assert(state@[i] == prev_state[i]);
                        assert(state_view(prev_state)[i] == tensors_view(prev_state[i]@));
                    }
                }
            }
            assert(sp_exec_state(*g, ord@, p + 1, iv, isc, mul, tb) == prev.update(
                g.pos_of(ord@[p as int]),
                seq![sp_node_val(*g, prev, g.pos_of(ord@[p as int]), iv, isc, mul, tb)],
            ));
            assert(state_view(state@) == sp_exec_state(*g, ord@, p + 1, iv, isc, mul, tb));
            // the observed sequence advances exactly as the spec says
            assert(observed == sp_observed(*g, ord@, p + 1, iv, isc, mul, tb));
        }
        p = p + 1;
    }
    // collect the outputs
    let n_out = g.outputs.len();
    let mut wout: Vec<Vec<i128>> = Vec::new();
    let mut oi: usize = 0;
    let ghost final_st = sp_exec_state(
        *g,
        ord@,
        np as int,
        tensors_view(inputs@),
        run_args.input_scale,
        run_args.scale_rebase_multiplier,
        tables.tables@,
    );
    while oi < n_out
        invariant
            oi <= n_out,
            n_out == g.outputs@.len(),
            g == &model.graph,
            g.indices_strictly_sorted(),
            state@.len() == g.nodes@.len(),
            wout@.len() == oi,
            safe == (check_mode == CheckMode::SAFE),
            lr == run_args.lookup_range,
            safe ==> tracker_lo(lr) <= minv <= 0 && 0 <= maxv <= tracker_hi(lr),
            minv as int == fold_min(observed, 0),
            maxv as int == fold_max(observed, 0),
            safe ==> forall|t: int| 0 <= t < observed.len() ==> lr.min <= #[trigger] observed[t]
                <= lr.max,
            state_view(state@) == final_st,
            final_st == sp_exec_state(
                *g,
                ord@,
                np as int,
                tensors_view(inputs@),
                run_args.input_scale,
                run_args.scale_rebase_multiplier,
                tables.tables@,
            ),
            observed == sp_observed(
                *g,
                ord@,
                np as int,
                tensors_view(inputs@),
                run_args.input_scale,
                run_args.scale_rebase_multiplier,
                tables.tables@,
            ),
            np == ord@.len(),
            is_topo_order(*g, ord@),
            forall|j: int|
                0 <= j < oi ==> (#[trigger] wout@[j])@ == final_st[g.pos_of(
                    g.outputs@[j].0,
                )][g.outputs@[j].1 as int].inner,
            win@.len() == inputs@.len(),
            inputs@.len() == g.inputs@.len(),
            forall|t: int| 0 <= t < win@.len() ==> (#[trigger] win@[t])@ == inputs@[t].inner@,
        decreases n_out - oi,
    {
        let o = g.outputs[oi];
        let t = match g.find_pos_pub(o.0) {
            None => {
                return Err(
                    ForwardError::Graph(GraphError::DanglingOutlet { node: o.0, slot: o.1 }),
                );
            },
            Some(p3) => {
                match fetch_value(&state, p3, o.1) {
                    Err(e) => {
                        return Err(e);
                    },
                    Ok(t) => {
                        proof {
                            assert(tv(t) == final_st[g.pos_of(o.0)][o.1 as int]);
                        }
                        t
                    },
                }
            },
        };
        wout.push(t.inner);
        oi = oi + 1;
    }
    Ok(
        GraphWitness {
            inputs: win,
            pretty_elements: None,
            outputs: wout,
            processed_inputs: None,
            processed_params: None,
            processed_outputs: None,
            max_lookup_inputs: maxv,
            min_lookup_inputs: minv,
        },
    )
}

/// Applies one polynomial operator to its gathered operands. Operators whose
/// evaluation the engine does not implement are refused by name.
fn eval_poly_node(
    g: &crate::model::ParsedNodes,
    state: &Vec<Vec<Tensor>>,
    node_inputs: &Vec<Outlet>,
    pop: &PolyOp,
    out_scale: Scale,
    run_args: &RunArgs,
) -> (r: Result<Tensor, ForwardError>)
    requires
        g.indices_strictly_sorted(),
        run_args.wf(),
    ensures
        !(r matches Err(ForwardError::LookupRange(_))),
        r matches Err(ForwardError::Unsupported(_)) ==> !poly_engine_evaluable(*pop),
        r matches Err(ForwardError::Graph(ge)) ==> ge != GraphError::Cycle,
        r matches Err(ForwardError::Overflow) ==> poly_can_overflow(*pop),
        r matches Ok(t) ==> tv(t) == sp_poly_val(
            sp_args(*g, state_view(state@), node_inputs@),
            *pop,
            out_scale,
            run_args.input_scale,
            run_args.scale_rebase_multiplier,
        ),
{
    let ghost spargs = sp_args(*g, state_view(state@), node_inputs@);
    let mut args: Vec<Tensor> = Vec::new();
    let m = node_inputs.len();
    let mut k: usize = 0;
    while k < m
        invariant
            k <= m,
            m == node_inputs@.len(),
            g.indices_strictly_sorted(),
            spargs == sp_args(*g, state_view(state@), node_inputs@),
            args@.len() == k,
            forall|j: int| 0 <= j < k ==> tv(#[trigger] args@[j]) == spargs[j],
        decreases m - k,
    {
        let o = node_inputs[k];
        match g.find_pos_pub(o.0) {
            None => {
                return Err(
                    ForwardError::Graph(GraphError::DanglingOutlet { node: o.0, slot: o.1 }),
                );
            },
            Some(p2) => {
                match fetch_value(state, p2, o.1) {
                    Err(e) => {
                        return Err(e);
                    },
                    Ok(t) => {
                        proof {
                            assert(spargs[k as int] == state_view(state@)[g.pos_of(
                                node_inputs@[k as int].0,
                            )][node_inputs@[k as int].1 as int]);
                            assert(tv(t) == spargs[k as int]);
                        }
                        args.push(t);
                    },
                }
            },
        }
    k = k + 1;
    }
    match pop {
        PolyOp::Identity => {
            if args.len() != 1 {
                return Err(ForwardError::Graph(GraphError::ShapeError));
            }
            let mut t = tensor_copy(&args[0]);
            t.scale = Some(out_scale);
            Ok(t)
        },
        PolyOp::Add => {
            if args.len() != 2 {
                return Err(ForwardError::Graph(GraphError::ShapeError));
            }
            tensor_binop(&args[0], &args[1], BinKind::Add, out_scale)
        },
        PolyOp::Sub => {
            if args.len() != 2 {
                return Err(ForwardError::Graph(GraphError::ShapeError));
            }
            tensor_binop(&args[0], &args[1], BinKind::Sub, out_scale)
        },
        PolyOp::Mult => {
            if args.len() != 2 {
                return Err(ForwardError::Graph(GraphError::ShapeError));
            }
            // multiplication adds the operand scales; the result is rebased
            // down to the input scale once it crosses the configured multiple
            let s1 = match args[0].scale {
                Some(s) => s,
                None => run_args.input_scale,
            };
            let s2 = match args[1].scale {
                Some(s) => s,
                None => run_args.input_scale,
            };
            let raw = match s1.checked_add(s2) {
                None => {
                    return Err(ForwardError::Overflow);
                },
                Some(v) => v,
            };
            match tensor_binop(&args[0], &args[1], BinKind::Mult, raw) {
                Err(e) => Err(e),
                Ok(t) => rebase_tensor(t, raw, run_args),
            }
        },
        PolyOp::And => {
            if args.len() != 2 {
                return Err(ForwardError::Graph(GraphError::ShapeError));
            }
            tensor_binop(&args[0], &args[1], BinKind::And, out_scale)
        },
        PolyOp::Or => {
            if args.len() != 2 {
                return Err(ForwardError::Graph(GraphError::ShapeError));
            }
            tensor_binop(&args[0], &args[1], BinKind::Or, out_scale)
        },
        PolyOp::Xor => {
            if args.len() != 2 {
                return Err(ForwardError::Graph(GraphError::ShapeError));
            }
            tensor_binop(&args[0], &args[1], BinKind::Xor, out_scale)
        },
        PolyOp::Not => {
            if args.len() != 1 {
                return Err(ForwardError::Graph(GraphError::ShapeError));
            }
            Ok(tensor_not(&args[0], out_scale))
        },
        PolyOp::Neg => {
            if args.len() != 1 {
                return Err(ForwardError::Graph(GraphError::ShapeError));
            }
            tensor_neg(&args[0], out_scale)
        },
        PolyOp::Pow(e) => {
            if args.len() != 1 {
                return Err(ForwardError::Graph(GraphError::ShapeError));
            }
            tensor_pow(&args[0], *e, out_scale)
        },
        PolyOp::Iff => {
            if args.len() != 3 {
                return Err(ForwardError::Graph(GraphError::ShapeError));
            }
            tensor_iff(&args[0], &args[1], &args[2], out_scale)
        },
        PolyOp::Reshape(shape) => {
            if args.len() != 1 {
                return Err(ForwardError::Graph(GraphError::ShapeError));
            }
            let mut t = tensor_copy(&args[0]);
            let newdims = copy_shape(shape);
            // the new shape must describe exactly the elements at hand
            if crate::graphsettings::sat_dims_product_exec(&newdims) != t.inner.len() {
                return Err(ForwardError::Graph(GraphError::ShapeError));
            }
            t.dims = newdims;
            t.scale = Some(out_scale);
            Ok(t)
        },
        PolyOp::Flatten(shape) => {
            if args.len() != 1 {
                return Err(ForwardError::Graph(GraphError::ShapeError));
            }
            let mut t = tensor_copy(&args[0]);
            let newdims = copy_shape(shape);
            // the new shape must describe exactly the elements at hand
            if crate::graphsettings::sat_dims_product_exec(&newdims) != t.inner.len() {
                return Err(ForwardError::Graph(GraphError::ShapeError));
            }
            t.dims = newdims;
            t.scale = Some(out_scale);
            Ok(t)
        },
        _ => Err(
            ForwardError::Unsupported(
                UnsupportedOpError {
                    name: "polynomial operator without an engine evaluation".to_owned(),
                },
            ),
        ),
    }
}

/// Applies the rebase policy to a freshly computed tensor at scale `raw`:
/// once the scale exceeds `input_scale * scale_rebase_multiplier`, every
/// element is rescaled down to `input_scale` with round-half-to-even.
fn rebase_tensor(t: Tensor, raw: Scale, run_args: &RunArgs) -> (r: Result<Tensor, ForwardError>)
    requires
        run_args.wf(),
    ensures
        match r {
            Ok(t2) => {
                &&& t2.dims@ == t.dims@
                &&& t2.inner@.len() == t.inner@.len()
                &&& if should_rebase_spec(
                    raw as int,
                    run_args.input_scale as int,
                    run_args.scale_rebase_multiplier as int,
                ) && raw > run_args.input_scale {
                    t2.scale == Some(run_args.input_scale) && forall|i: int|
                        0 <= i < t2.inner@.len() ==> #[trigger] t2.inner@[i] as int
                            == crate::scale::rescale_spec(
                            t.inner@[i] as int,
                            raw as int,
                            run_args.input_scale as int,
                        )
                } else {
                    t2.scale == Some(raw) && t2.inner@ == t.inner@
                }
            },
            Err(e) => e == ForwardError::Overflow,
        },
{
    if raw < -63 || raw > 63 {
        return Err(ForwardError::Overflow);
    }
    if should_rebase(raw, run_args.input_scale, run_args.scale_rebase_multiplier) && raw
        > run_args.input_scale {
        let n = t.inner.len();
        let mut inner: Vec<i128> = Vec::new();
        let mut i: usize = 0;
        while i < n
            invariant
                i <= n,
                n == t.inner@.len(),
                run_args.wf(),
                -63 <= raw <= 63,
                raw > run_args.input_scale,
                inner@.len() == i,
                forall|j: int|
                    0 <= j < i ==> #[trigger] inner@[j] as int == crate::scale::rescale_spec(
                        t.inner@[j] as int,
                        raw as int,
                        run_args.input_scale as int,
                    ),
            decreases n - i,
        {
            let x = t.inner[i];
            if x < -0x4000000000000000i128 || x > 0x4000000000000000i128 {
                return Err(ForwardError::Overflow);
            }
            let y = crate::scale::rescale(x, raw, run_args.input_scale);
            inner.push(y);
            i = i + 1;
        }
        Ok(
            Tensor {
                inner,
                dims: t.dims,
                scale: Some(run_args.input_scale),
                visibility: None,
            },
        )
    } else {
        Ok(Tensor { inner: t.inner, dims: t.dims, scale: Some(raw), visibility: None })
    }
}

/// A plain element-by-element copy of a shape.
fn copy_shape(src: &Vec<usize>) -> (r: Vec<usize>)
    ensures
        r@ == src@,
{
    let n = src.len();
    let mut out: Vec<usize> = Vec::new();
    let mut i: usize = 0;
    while i < n
        invariant
            i <= n,
            n == src@.len(),
            out@ == src@.take(i as int),
        decreases n - i,
    {
        out.push(src[i]);
        proof {
            assert(out@ =~= src@.take(i + 1));
        }
        i = i + 1;
    }
    proof {
        assert(src@.take(n as int) =~= src@);
    }
    out
}

/// Whether every rational parameter of the operator is well formed.
pub fn lookup_op_wf_check(op: &LookupOp) -> (r: bool)
    ensures
        r == op.wf(),
{
    match op {
        LookupOp::Div { denom } => rat_wf_check(denom),
        LookupOp::Max { scale, a } => rat_wf_check(scale) && rat_wf_check(a),
        LookupOp::Min { scale, a } => rat_wf_check(scale) && rat_wf_check(a),
        LookupOp::Ceil { scale } => rat_wf_check(scale),
        LookupOp::Floor { scale } => rat_wf_check(scale),
        LookupOp::Round { scale } => rat_wf_check(scale),
        LookupOp::RoundHalfToEven { scale } => rat_wf_check(scale),
        LookupOp::Sqrt { scale } => rat_wf_check(scale),
        LookupOp::Rsqrt { scale } => rat_wf_check(scale),
        LookupOp::Recip { scale } => rat_wf_check(scale),
        LookupOp::LeakyReLU { slope } => rat_wf_check(slope),
        LookupOp::Sigmoid { scale } => rat_wf_check(scale),
        LookupOp::Ln { scale } => rat_wf_check(scale),
        LookupOp::Exp { scale } => rat_wf_check(scale),
        LookupOp::Cos { scale } => rat_wf_check(scale),
        LookupOp::ACos { scale } => rat_wf_check(scale),
        LookupOp::Cosh { scale } => rat_wf_check(scale),
        LookupOp::ACosh { scale } => rat_wf_check(scale),
        LookupOp::Sin { scale } => rat_wf_check(scale),
        LookupOp::ASin { scale } => rat_wf_check(scale),
        LookupOp::Sinh { scale } => rat_wf_check(scale),
        LookupOp::ASinh { scale } => rat_wf_check(scale),
        LookupOp::Tan { scale } => rat_wf_check(scale),
        LookupOp::ATan { scale } => rat_wf_check(scale),
        LookupOp::Tanh { scale } => rat_wf_check(scale),
        LookupOp::ATanh { scale } => rat_wf_check(scale),
        LookupOp::Erf { scale } => rat_wf_check(scale),
        LookupOp::GreaterThan { a } => rat_wf_check(a),
        LookupOp::LessThan { a } => rat_wf_check(a),
        LookupOp::GreaterThanEqual { a } => rat_wf_check(a),
        LookupOp::LessThanEqual { a } => rat_wf_check(a),
        LookupOp::Pow { scale, a } => rat_wf_check(scale) && rat_wf_check(a),
        _ => true,
    }
}

/// Whether a rational parameter is well formed.
fn rat_wf_check(r0: &crate::supportedop::Rat) -> (r: bool)
    ensures
        r == r0.wf(),
{
    0 < r0.den && r0.den <= 0x80000000 && -0x80000000 <= r0.num && r0.num <= 0x80000000
}

/// The character of one decimal digit.
pub open spec fn digit_char(d: int) -> char {
    if d == 0 {
        '0'
    } else if d == 1 {
        '1'
    } else if d == 2 {
        '2'
    } else if d == 3 {
        '3'
    } else if d == 4 {
        '4'
    } else if d == 5 {
        '5'
    } else if d == 6 {
        '6'
    } else if d == 7 {
        '7'
    } else if d == 8 {
        '8'
    } else {
        '9'
    }
}

/// The decimal rendering of a nonnegative integer, most significant digit
/// first.
pub open spec fn dec_chars(n: nat) -> Seq<char>
    decreases n,
{
    if n < 10 {
        seq![digit_char(n as int)]
    } else {
        dec_chars(n / 10).push(digit_char((n % 10) as int))
    }
}

/// The decimal rendering of a signed integer.
pub open spec fn dec_chars_signed(x: int) -> Seq<char> {
    if x < 0 {
        seq!['-'] + dec_chars((-x) as nat)
    } else {
        dec_chars(x as nat)
    }
}

/// The first `cnt` decimal digits of the fraction `rem / p`.
pub open spec fn frac_chars(rem: int, p: int, cnt: nat) -> Seq<char>
    decreases cnt,
{
    if cnt == 0 {
        Seq::empty()
    } else {
        seq![digit_char((rem * 10) / p)] + frac_chars((rem * 10) % p, p, (cnt - 1) as nat)
    }
}

/// The exact decimal rendering of the fixed-point value `x / 2^s`: for
/// `s >= 0` a sign, the integer part and, when `s > 0`, exactly `s` fraction
/// digits (a dyadic fraction terminates within them); for `s < 0` the
/// integer `x * 2^|s|`.
pub open spec fn fixed_point_chars(x: int, s: int) -> Seq<char> {
    if s < 0 {
        dec_chars_signed(x * vstd::arithmetic::power2::pow2((-s) as nat))
    } else {
        let m = if x < 0 {
            (-x) as nat
        } else {
            x as nat
        };
        let p = vstd::arithmetic::power2::pow2(s as nat);
        let sign: Seq<char> = if x < 0 {
            seq!['-']
        } else {
            Seq::empty()
        };
        if s == 0 {
            sign + dec_chars(m)
        } else {
            sign + dec_chars(m / p) + seq!['.'] + frac_chars((m % p) as int, p as int, s as nat)
        }
    }
}

/// Whether the renderer can express `x / 2^s`: everything except the one
/// value whose magnitude the machine lacks (after clearing a negative
/// scale's factor).
pub open spec fn renderable_at(x: int, s: int) -> bool {
    if s >= 0 {
        x != i128::MIN
    } else {
        i128::MIN < x * vstd::arithmetic::power2::pow2((-s) as nat) <= i128::MAX
    }
}

/// One decimal digit as a string.
fn digit_str(d: u128) -> (r: &'static str)
    requires
        d < 10,
    ensures
        r@ == seq![digit_char(d as int)],
{
    proof {
        reveal_strlit("0");
        reveal_strlit("1");
        reveal_strlit("2");
        reveal_strlit("3");
        reveal_strlit("4");
        reveal_strlit("5");
        reveal_strlit("6");
        reveal_strlit("7");
        reveal_strlit("8");
        reveal_strlit("9");
    }
    let r = if d == 0 {
        "0"
    } else if d == 1 {
        "1"
    } else if d == 2 {
        "2"
    } else if d == 3 {
        "3"
    } else if d == 4 {
        "4"
    } else if d == 5 {
        "5"
    } else if d == 6 {
        "6"
    } else if d == 7 {
        "7"
    } else if d == 8 {
        "8"
    } else {
        "9"
    };
    proof {
        assert(r@ =~= seq![digit_char(d as int)]);
    }
    r
}

/// The decimal rendering of a nonnegative integer.
pub fn u128_to_decimal(n: u128) -> (r: String)
    ensures
        r@ == dec_chars(n as nat),
    decreases n,
{
    if n < 10 {
        String::from_str(digit_str(n))
    } else {
        let mut s = u128_to_decimal(n / 10);
        s.append(digit_str(n % 10));
        proof {
            assert(s@ =~= dec_chars(n as nat));
        }
        s
    }
}

/// The decimal rendering of a signed integer.
pub fn i128_to_decimal(x: i128) -> (r: String)
    requires
        x > i128::MIN,
    ensures
        r@ == dec_chars_signed(x as int),
{
    if x < 0 {
        let mut s = String::from_str("-");
        proof {
            reveal_strlit("-");
        }
        let m = u128_to_decimal((-x) as u128);
        s.append(m.as_str());
        proof {
            assert(s@ =~= dec_chars_signed(x as int));
        }
        s
    } else {
        u128_to_decimal(x as u128)
    }
}

/// The exact decimal rendering of the fixed-point value `x / 2^s`.
pub fn fixed_point_to_decimal(x: i128, s: Scale) -> (r: String)
    requires
        -63 <= s <= 63,
        renderable_at(x as int, s as int),
    ensures
        r@ == fixed_point_chars(x as int, s as int),
{
    if s < 0 {
        let p = crate::scale::pow2_i128((-(s as i64)) as u32);
        proof {
            assert((-(s as i64)) as nat == (-(s as int)) as nat);
        }
        let m2 = x * p;
        return i128_to_decimal(m2);
    }
    let m: u128 = if x < 0 {
        (-x) as u128
    } else {
        x as u128
    };
    let p: u128 = crate::scale::pow2_i128(s as u32) as u128;
    proof {
        vstd::arithmetic::power2::lemma_pow2_pos(s as nat);
    }
    let mut out: String = if x < 0 {
        proof {
            reveal_strlit("-");
        }
        String::from_str("-")
    } else {
        String::from_str("")
    };
    proof {
        reveal_strlit("");
    }
    if s == 0 {
        let ip = u128_to_decimal(m);
        out.append(ip.as_str());
        proof {
            assert(out@ =~= fixed_point_chars(x as int, s as int));
        }
        return out;
    }
    let ip = u128_to_decimal(m / p);
    out.append(ip.as_str());
    proof {
        reveal_strlit(".");
    }
    out.append(".");
    let mut rem: u128 = m % p;
    let mut cnt: u32 = s as u32;
    let ghost base = out@;
    proof {
        vstd::arithmetic::power2::lemma2_to64();
        vstd::arithmetic::power2::lemma2_to64_rest();
        if (s as nat) != 63 {
            vstd::arithmetic::power2::lemma_pow2_strictly_increases(s as nat, 63);
        }
        let full = frac_chars((m % p) as int, p as int, s as nat);
        assert(out@ =~= base + full.take(0));
        assert(frac_chars(rem as int, p as int, cnt as nat) =~= full.skip(0));
    }
    while cnt > 0
        invariant
            rem < p,
            0 < p <= 0x8000000000000000,
            out@ == base + frac_chars((m % p) as int, p as int, s as nat).take(
                (s as int) - (cnt as int),
            ),
            cnt <= s,
            0 <= s <= 63,
            frac_chars(rem as int, p as int, cnt as nat) == frac_chars(
                (m % p) as int,
                p as int,
                s as nat,
            ).skip((s as int) - (cnt as int)),
        decreases cnt,
    {
        let r10 = rem * 10;
        let d = r10 / p;
        let ghost old_rem = rem;
        let ghost old_cnt = cnt;
        proof {
            assert(r10 / p < 10) by (nonlinear_arith)
                requires
                    rem < p,
                    p > 0,
                    r10 == rem * 10,
            ;
            assert(frac_chars(rem as int, p as int, cnt as nat) == seq![
                digit_char((r10 / p) as int),
            ] + frac_chars((r10 % p) as int, p as int, (cnt - 1) as nat));
        }
        out.append(digit_str(d));
        rem = r10 % p;
        cnt = cnt - 1;
        proof {
            let full = frac_chars((m % p) as int, p as int, s as nat);
            lemma_frac_chars_len((m % p) as int, p as int, s as nat);
            let k = (s as int) - (old_cnt as int);
            assert(full.skip(k)[0] == full[k]);
            assert(full[k] == digit_char((r10 / p) as int));
            assert(full.take(k + 1) =~= full.take(k).push(full[k]));
            assert(out@ =~= base + full.take((s as int) - (cnt as int)));
            assert(frac_chars(rem as int, p as int, cnt as nat) =~= full.skip(k).drop_first());
            assert(full.skip(k).drop_first() =~= full.skip((s as int) - (cnt as int)));
        }
    }
    proof {
        let full = frac_chars((m % p) as int, p as int, s as nat);
        lemma_frac_chars_len((m % p) as int, p as int, s as nat);
        assert(full.take(s as int) =~= full);
        assert(out@ =~= fixed_point_chars(x as int, s as int));
    }
    out
}

/// A fraction rendering has exactly its digit count.
proof fn lemma_frac_chars_len(rem: int, p: int, cnt: nat)
    ensures
        frac_chars(rem, p, cnt).len() == cnt,
    decreases cnt,
{
    if cnt > 0 {
        lemma_frac_chars_len((rem * 10) % p, p, (cnt - 1) as nat);
    }
}

/// The character of one hexadecimal digit.
pub open spec fn hex_digit_char(d: int) -> char {
    if d < 10 {
        digit_char(d)
    } else if d == 10 {
        'a'
    } else if d == 11 {
        'b'
    } else if d == 12 {
        'c'
    } else if d == 13 {
        'd'
    } else if d == 14 {
        'e'
    } else {
        'f'
    }
}

/// The fixed-width hexadecimal rendering of a nonnegative integer, most
/// significant digit first.
pub open spec fn hex_fixed_chars(n: int, w: nat) -> Seq<char>
    decreases w,
{
    if w == 0 {
        Seq::empty()
    } else {
        hex_fixed_chars(n / 16, (w - 1) as nat).push(hex_digit_char(n % 16))
    }
}

/// The `0x`-prefixed 64-digit rendering of a raw 256-bit element.
pub open spec fn felt_hex_chars(f: Felt) -> Seq<char> {
    seq!['0', 'x'] + hex_fixed_chars(f.hi as int, 32) + hex_fixed_chars(f.lo as int, 32)
}

/// One hexadecimal digit as a string.
fn hex_digit_str(d: u128) -> (r: &'static str)
    requires
        d < 16,
    ensures
        r@ == seq![hex_digit_char(d as int)],
{
    if d < 10 {
        digit_str(d)
    } else {
        proof {
            reveal_strlit("a");
            reveal_strlit("b");
            reveal_strlit("c");
            reveal_strlit("d");
            reveal_strlit("e");
            reveal_strlit("f");
        }
        let r = if d == 10 {
            "a"
        } else if d == 11 {
            "b"
        } else if d == 12 {
            "c"
        } else if d == 13 {
            "d"
        } else if d == 14 {
            "e"
        } else {
            "f"
        };
        proof {
            assert(r@ =~= seq![hex_digit_char(d as int)]);
        }
        r
    }
}

/// The fixed-width hexadecimal rendering of a word.
fn u128_to_hex(n: u128, w: u32) -> (r: String)
    ensures
        r@ == hex_fixed_chars(n as int, w as nat),
    decreases w,
{
    if w == 0 {
        let r = String::from_str("");
        proof {
            reveal_strlit("");
            assert(r@ =~= hex_fixed_chars(n as int, 0));
        }
        r
    } else {
        let mut s = u128_to_hex(n / 16, w - 1);
        s.append(hex_digit_str(n % 16));
        proof {
            assert(s@ =~= hex_fixed_chars(n as int, w as nat));
        }
        s
    }
}

/// The `0x`-prefixed rendering of a raw element.
pub fn felt_to_hex(f: &Felt) -> (r: String)
    ensures
        r@ == felt_hex_chars(*f),
{
    let mut s = String::from_str("0x");
    proof {
        reveal_strlit("0x");
    }
    let hi = u128_to_hex(f.hi, 32);
    s.append(hi.as_str());
    let lo = u128_to_hex(f.lo, 32);
    s.append(lo.as_str());
    proof {
        assert(s@ =~= felt_hex_chars(*f));
    }
    s
}

/// Renders one flattened value group as exact fixed-point decimals.
fn render_decimal_group(vals: &Vec<i128>, s: Scale) -> (r: Result<Vec<String>, ForwardError>)
    requires
        -63 <= s <= 63,
    ensures
        match r {
            Ok(out) => out@.len() == vals@.len() && forall|k: int|
                0 <= k < out@.len() ==> (#[trigger] out@[k])@ == fixed_point_chars(
                    vals@[k] as int,
                    s as int,
                ),
            Err(e) => e == ForwardError::Overflow,
        },
        r is Err <==> exists|k: int|
            0 <= k < vals@.len() && !renderable_at(#[trigger] vals@[k] as int, s as int),
{
    let n = vals.len();
    let mut out: Vec<String> = Vec::new();
    let mut k: usize = 0;
    while k < n
        invariant
            k <= n,
            n == vals@.len(),
            -63 <= s <= 63,
            out@.len() == k,
            forall|t: int| 0 <= t < k ==> renderable_at(#[trigger] vals@[t] as int, s as int),
            forall|t: int|
                0 <= t < k ==> (#[trigger] out@[t])@ == fixed_point_chars(
                    vals@[t] as int,
                    s as int,
                ),
        decreases n - k,
    {
        let x = vals[k];
        if s >= 0 {
            if x == i128::MIN {
                proof {
                    assert(!renderable_at(vals@[k as int] as int, s as int));
                }
                return Err(ForwardError::Overflow);
            }
        } else {
            let p = crate::scale::pow2_i128((-(s as i64)) as u32);
            proof {
                assert((-(s as i64)) as nat == (-(s as int)) as nat);
            }
            let ok = match x.checked_mul(p) {
                None => false,
                Some(m2) => m2 != i128::MIN,
            };
            if !ok {
                proof {
                    assert(!renderable_at(vals@[k as int] as int, s as int));
                }
                return Err(ForwardError::Overflow);
            }
        }
        out.push(fixed_point_to_decimal(x, s));
        k = k + 1;
    }
    Ok(out)
}

/// The readable renderings of the witness: exact fixed-point decimal strings
/// for the quantized inputs and outputs (at the given scales), and
/// `0x`-prefixed strings for the committed artifacts. A pure step: it reads
/// the witness and never changes it. The raw-element string groups for the
/// inputs and outputs stay empty here: embedding a quantized value into the
/// proof field is the backend's own encoding.
pub fn render_pretty(
    w: &GraphWitness,
    input_scale: Scale,
    output_scale: Scale,
) -> (r: Result<PrettyElements, ForwardError>)
    requires
        -63 <= input_scale <= 63,
        -63 <= output_scale <= 63,
    ensures
        match r {
            Ok(pe) => {
                &&& pe.rescaled_inputs@.len() == w.inputs@.len()
                &&& forall|j: int|
                    0 <= j < w.inputs@.len() ==> (#[trigger] pe.rescaled_inputs@[j])@.len()
                        == w.inputs@[j]@.len()
                &&& forall|j: int, k: int|
                    #![trigger pe.rescaled_inputs@[j]@[k]]
                    0 <= j < w.inputs@.len() && 0 <= k < w.inputs@[j]@.len()
                        ==> (pe.rescaled_inputs@[j]@[k])@ == fixed_point_chars(
                        w.inputs@[j]@[k] as int,
                        input_scale as int,
                    )
                &&& pe.rescaled_outputs@.len() == w.outputs@.len()
                &&& forall|j: int, k: int|
                    #![trigger pe.rescaled_outputs@[j]@[k]]
                    0 <= j < w.outputs@.len() && 0 <= k < w.outputs@[j]@.len()
                        ==> (pe.rescaled_outputs@[j]@[k])@ == fixed_point_chars(
                        w.outputs@[j]@[k] as int,
                        output_scale as int,
                    )
                &&& processed_rendered(w.processed_inputs, pe.processed_inputs@)
                &&& processed_rendered(w.processed_params, pe.processed_params@)
                &&& processed_rendered(w.processed_outputs, pe.processed_outputs@)
            },
            Err(e) => e == ForwardError::Overflow,
        },
        r is Err <==> (exists|j: int, k: int|
            0 <= j < w.inputs@.len() && 0 <= k < w.inputs@[j]@.len() && !renderable_at(
                #[trigger] w.inputs@[j]@[k] as int,
                input_scale as int,
            )) || (exists|j: int, k: int|
            0 <= j < w.outputs@.len() && 0 <= k < w.outputs@[j]@.len() && !renderable_at(
                #[trigger] w.outputs@[j]@[k] as int,
                output_scale as int,
            )),
{
    let mut rescaled_inputs: Vec<Vec<String>> = Vec::new();
    let ni = w.inputs.len();
    let mut j: usize = 0;
    while j < ni
        invariant
            j <= ni,
            ni == w.inputs@.len(),
            -63 <= input_scale <= 63,
            rescaled_inputs@.len() == j,
            forall|t: int, k: int|
                0 <= t < j && 0 <= k < w.inputs@[t]@.len() ==> renderable_at(
                    #[trigger] w.inputs@[t]@[k] as int,
                    input_scale as int,
                ),
            forall|t: int|
                0 <= t < j ==> (#[trigger] rescaled_inputs@[t])@.len() == w.inputs@[t]@.len()
                    && forall|k: int|
                    0 <= k < w.inputs@[t]@.len() ==> ((rescaled_inputs@[t])@[k])@
                        == fixed_point_chars(w.inputs@[t]@[k] as int, input_scale as int),
        decreases ni - j,
    {
        let g = match render_decimal_group(&w.inputs[j], input_scale) {
            Err(e) => {
                proof {
                    let kk = choose|k: int|
                        0 <= k < w.inputs@[j as int]@.len() && !renderable_at(
                            w.inputs@[j as int]@[k] as int,
                            input_scale as int,
                        );
                    assert(!renderable_at(w.inputs@[j as int]@[kk] as int, input_scale as int));
                }
                return Err(e);
            },
            Ok(g) => g,
        };
        rescaled_inputs.push(g);
        j = j + 1;
    }
    let mut rescaled_outputs: Vec<Vec<String>> = Vec::new();
    let no = w.outputs.len();
    let mut t: usize = 0;
    while t < no
        invariant
            t <= no,
            no == w.outputs@.len(),
            -63 <= output_scale <= 63,
            rescaled_outputs@.len() == t,
            forall|u: int, k: int|
                0 <= u < w.inputs@.len() && 0 <= k < w.inputs@[u]@.len() ==> renderable_at(
                    #[trigger] w.inputs@[u]@[k] as int,
                    input_scale as int,
                ),
            forall|u: int, k: int|
                0 <= u < t && 0 <= k < w.outputs@[u]@.len() ==> renderable_at(
                    #[trigger] w.outputs@[u]@[k] as int,
                    output_scale as int,
                ),
            forall|u: int|
                0 <= u < t ==> (#[trigger] rescaled_outputs@[u])@.len() == w.outputs@[u]@.len()
                    && forall|k: int|
                    0 <= k < w.outputs@[u]@.len() ==> ((rescaled_outputs@[u])@[k])@
                        == fixed_point_chars(w.outputs@[u]@[k] as int, output_scale as int),
        decreases no - t,
    {
        let g = match render_decimal_group(&w.outputs[t], output_scale) {
            Err(e) => {
                proof {
                    let kk = choose|k: int|
                        0 <= k < w.outputs@[t as int]@.len() && !renderable_at(
                            w.outputs@[t as int]@[k] as int,
                            output_scale as int,
                        );
                    assert(!renderable_at(w.outputs@[t as int]@[kk] as int, output_scale as int));
                }
                return Err(e);
            },
            Ok(g) => g,
        };
        rescaled_outputs.push(g);
        t = t + 1;
    }
    let processed_inputs = render_processed(&w.processed_inputs);
    let processed_params = render_processed(&w.processed_params);
    let processed_outputs = render_processed(&w.processed_outputs);
    Ok(
        PrettyElements {
            rescaled_inputs,
            inputs: Vec::new(),
            processed_inputs,
            processed_params,
            processed_outputs,
            rescaled_outputs,
            outputs: Vec::new(),
        },
    )
}

/// Attaches the committed artifacts the external hash and commitment
/// primitives produced: each category keeps its result exactly when its
/// visibility commits it (hashed or committed), and stays empty otherwise.
/// Everything else in the witness is unchanged.
pub fn attach_processed(
    w: GraphWitness,
    vis: &crate::model::VarVisibility,
    inputs_result: Option<ModuleForwardResult>,
    params_result: Option<ModuleForwardResult>,
    outputs_result: Option<ModuleForwardResult>,
) -> (r: GraphWitness)
    ensures
        r.processed_inputs == (if vis.input.spec_requires_processing() {
            inputs_result
        } else {
            None
        }),
        r.processed_params == (if vis.params.spec_requires_processing() {
            params_result
        } else {
            None
        }),
        r.processed_outputs == (if vis.output.spec_requires_processing() {
            outputs_result
        } else {
            None
        }),
        r.inputs == w.inputs,
        r.outputs == w.outputs,
        r.pretty_elements == w.pretty_elements,
        r.max_lookup_inputs == w.max_lookup_inputs,
        r.min_lookup_inputs == w.min_lookup_inputs,
{
    let processed_inputs = if vis.input.requires_processing() {
        inputs_result
    } else {
        None
    };
    let processed_params = if vis.params.requires_processing() {
        params_result
    } else {
        None
    };
    let processed_outputs = if vis.output.requires_processing() {
        outputs_result
    } else {
        None
    };
    GraphWitness {
        inputs: w.inputs,
        pretty_elements: w.pretty_elements,
        outputs: w.outputs,
        processed_inputs,
        processed_params,
        processed_outputs,
        max_lookup_inputs: w.max_lookup_inputs,
        min_lookup_inputs: w.min_lookup_inputs,
    }
}

/// The `0x` renderings of a committed artifact's hash elements.
pub open spec fn processed_rendered(p: Option<ModuleForwardResult>, r: Seq<Vec<String>>) -> bool {
    match p {
        Some(mfr) => match mfr.poseidon_hash {
            Some(h) => r.len() == 1 && r[0]@.len() == h@.len() && forall|k: int|
                0 <= k < h@.len() ==> ((#[trigger] r[0]@[k])@ == felt_hex_chars(h@[k])),
            None => r.len() == 0,
        },
        None => r.len() == 0,
    }
}

/// Renders the hash elements of a committed artifact as `0x` strings.
fn render_processed(p: &Option<ModuleForwardResult>) -> (r: Vec<Vec<String>>)
    ensures
        processed_rendered(*p, r@),
{
    match p {
        None => Vec::new(),
        Some(mfr) => {
            match &mfr.poseidon_hash {
                None => Vec::new(),
                Some(h) => {
                    let n = h.len();
                    let mut row: Vec<String> = Vec::new();
                    let mut k: usize = 0;
                    while k < n
                        invariant
                            k <= n,
                            n == h@.len(),
                            row@.len() == k,
                            forall|u: int|
                                0 <= u < k ==> ((#[trigger] row@[u])@ == felt_hex_chars(h@[u])),
                        decreases n - k,
                    {
                        row.push(felt_to_hex(&h[k]));
                        k = k + 1;
                    }
                    let mut out: Vec<Vec<String>> = Vec::new();
                    out.push(row);
                    out
                },
            }
        },
    }
}

} // verus!

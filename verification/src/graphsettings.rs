//! Compilation parameters and the derived circuit dimensions: the circuit
//! sizer aggregates per-node costs into global row counts and decides whether
//! the circuit fits the requested row budget.

use vstd::prelude::*;
use vstd::arithmetic::power2::*;
use crate::scale::Scale;
use crate::model::{Model, ParsedNodes, NodeType, Visibility, GraphError, lemma_pos_unique};
use crate::supportedop::{
    LookupOp, PolyOp, SupportedOp, Rat, UnsupportedOpError, DomainError, lookup_domain,
    lookup_domain_spec,
};

verus! {

/// Accepted deviation of an output against the float reference, as an exact
/// value and the scale it is expressed at.
#[derive(Clone, Copy, Debug, PartialEq, Eq, Structural)]
pub struct Tolerance {
    pub val: Rat,
    pub scale: Rat,
}

/// The admissible closed interval for any lookup-table input.
#[derive(Clone, Copy, Debug, PartialEq, Eq, Structural)]
pub struct LookupRange {
    pub min: i128,
    pub max: i128,
}

/// Whether the witness engine performs runtime sanity checks (`SAFE`) or
/// skips them for speed, deferring detection to the backend (`UNSAFE`).
#[derive(Clone, Copy, Debug, PartialEq, Eq, Structural)]
pub enum CheckMode {
    SAFE,
    UNSAFE,
}

/// Parameters specific to a proving run.
#[derive(Clone, Debug, PartialEq)]
pub struct RunArgs {
    /// Accepted deviation on model outputs.
    pub tolerance: Tolerance,
    /// The fixed-point scale inputs are quantized at.
    pub input_scale: Scale,
    /// The fixed-point scale parameters are quantized at.
    pub param_scale: Scale,
    /// Once a scale exceeds `scale_rebase_multiplier * input_scale` it is
    /// rebased down to `input_scale`.
    pub scale_rebase_multiplier: u32,
    /// The admissible interval for any lookup-table input.
    pub lookup_range: LookupRange,
    /// The circuit has exactly `2^logrows` usable rows.
    pub logrows: u32,
    /// Lookup tables are split across this many columns.
    pub num_inner_cols: usize,
    /// Named symbolic dimensions, e.g. the batch size.
    pub variables: Vec<(String, usize)>,
    /// Visibility of the model inputs.
    pub input_visibility: Visibility,
    /// Visibility of the model outputs.
    pub output_visibility: Visibility,
    /// Visibility of the model parameters.
    pub param_visibility: Visibility,
}

impl RunArgs {
    /// Machine bounds under which sizing and execution cannot overflow.
    pub open spec fn wf(&self) -> bool {
        &&& -63 <= self.input_scale <= 63
        &&& -63 <= self.param_scale <= 63
        &&& self.scale_rebase_multiplier <= 256
        &&& self.lookup_range.min <= self.lookup_range.max
        &&& -0x4000000000000000 <= self.lookup_range.min
        &&& self.lookup_range.max <= 0x4000000000000000
        &&& self.logrows <= 31
        &&& 1 <= self.num_inner_cols <= 0x10000
        &&& self.input_visibility.wf()
        &&& self.output_visibility.wf()
        &&& self.param_visibility.wf()
    }

    /// Checks the machine bounds under which sizing and execution cannot
    /// overflow.
    pub fn check_wf(&self) -> (r: bool)
        ensures
            r == self.wf(),
    {
        -63 <= self.input_scale && self.input_scale <= 63 && -63 <= self.param_scale
            && self.param_scale <= 63 && self.scale_rebase_multiplier <= 256
            && self.lookup_range.min <= self.lookup_range.max && -0x4000000000000000
            <= self.lookup_range.min && self.lookup_range.max <= 0x4000000000000000
            && self.logrows <= 31 && 1 <= self.num_inner_cols && self.num_inner_cols <= 0x10000
            && self.input_visibility.requires_wf_check() && self.output_visibility.requires_wf_check()
            && self.param_visibility.requires_wf_check()
    }
}

/// Per-auxiliary-module cost: instance cells of each polynomial-commitment
/// column, and the hash module's row count with its per-group cells.
#[derive(Clone, Debug, PartialEq, Eq)]
pub struct ModuleSizes {
    /// Instance cells used by the polynomial-commitment module.
    pub kzg: Vec<usize>,
    /// Rows used by the hash module.
    pub poseidon_rows: usize,
    /// Instance cells used by the hash module.
    pub poseidon_instances: Vec<usize>,
}

/// The circuit would need more rows than the requested budget provides.
#[derive(Clone, Copy, Debug, PartialEq, Eq, Structural)]
pub struct CapacityError {
    /// Rows the circuit needs (saturated at `usize::MAX`).
    pub required: usize,
    /// Rows the requested `logrows` provides.
    pub available: usize,
}

/// Any failure of circuit sizing.
#[derive(Clone, Debug, PartialEq)]
pub enum SizeError {
    /// Structural defect found while ordering the graph.
    Graph(GraphError),
    /// An operator outside the supported set.
    Unsupported(UnsupportedOpError),
    /// A lookup table's domain cannot be covered.
    Domain(DomainError),
    /// The circuit does not fit the requested row budget.
    Capacity(CapacityError),
}

/// The derived, immutable description of a sized circuit.
#[derive(Clone, Debug, PartialEq)]
pub struct GraphSettings {
    /// The run parameters the circuit was sized for.
    pub run_args: RunArgs,
    /// Usable rows: `2^logrows`.
    pub num_rows: usize,
    /// Rows consumed by gate assignments and lookup-table entries.
    pub total_assignments: usize,
    /// Rows consumed by constants.
    pub total_const_size: usize,
    /// Shapes of the public instances, in order of appearance.
    pub model_instance_shapes: Vec<Vec<usize>>,
    /// Output scales of the model.
    pub model_output_scales: Vec<Scale>,
    /// Input scales of the model.
    pub model_input_scales: Vec<Scale>,
    /// Auxiliary module costs.
    pub module_sizes: ModuleSizes,
    /// The deduplicated set of distinct lookup operations the model uses.
    pub required_lookups: Vec<LookupOp>,
    /// Whether execution performs runtime sanity checks.
    pub check_mode: CheckMode,
    /// Version stamp supplied by the caller.
    pub version: String,
    /// Blinding rows required by the proving backend.
    pub num_blinding_factors: Option<usize>,
    /// Unix-time stamp supplied by the caller.
    pub timestamp: Option<u128>,
}

impl Visibility {
    /// Well-formedness as an executable check.
    pub fn requires_wf_check(&self) -> (r: bool)
        ensures
            r == self.wf(),
    {
        match self {
            Visibility::Hashed { outlets, .. } => outlets.len() > 0,
            _ => true,
        }
    }
}

/// The lookup operations of one node: the node's own nonlinear operator, or
/// those of a nested model, to a bounded nesting depth.
pub open spec fn node_lookups(nt: NodeType, depth: nat) -> Seq<LookupOp>
    decreases depth, 0nat, 0nat,
{
    match nt {
        NodeType::Node(n) => match n.op {
            SupportedOp::Nonlinear(l) => seq![l],
            _ => Seq::empty(),
        },
        NodeType::SubGraph { model, .. } => {
            if depth == 0 {
                Seq::empty()
            } else {
                graph_lookups_prefix(model.graph, model.graph.nodes@.len() as int, (depth - 1) as nat)
            }
        },
    }
}

/// The lookup operations of the first `i` arena entries, in arena order.
pub open spec fn graph_lookups_prefix(g: ParsedNodes, i: int, depth: nat) -> Seq<LookupOp>
    decreases depth, 1nat, i,
{
    if i <= 0 {
        Seq::empty()
    } else {
        graph_lookups_prefix(g, i - 1, depth) + node_lookups(g.nodes@[i - 1].1, depth)
    }
}

/// Keeps the first occurrence of each element, dropping later duplicates.
pub open spec fn first_dedup(s: Seq<LookupOp>) -> Seq<LookupOp>
    decreases s.len(),
{
    if s.len() == 0 {
        Seq::empty()
    } else {
        let rest = first_dedup(s.drop_last());
        if rest.contains(s.last()) {
            rest
        } else {
            rest.push(s.last())
        }
    }
}

/// The deduplicated lookup operations of a model, in first-use arena order:
/// a pure function of the model alone, so two executions of the same model
/// agree on it whatever the execution order.
pub open spec fn model_required_lookups(m: Model, depth: nat) -> Seq<LookupOp> {
    first_dedup(graph_lookups_prefix(m.graph, m.graph.nodes@.len() as int, depth))
}

/// How deep nested subgraphs are followed by the sizer and the engine.
pub const MAX_SUBGRAPH_DEPTH: u32 = 16;

/// Appends the lookup operations of one node, following nested models to
/// `depth` levels.
fn append_node_lookups(acc: &mut Vec<LookupOp>, nt: &NodeType, depth: u32)
    ensures
        final(acc)@ == old(acc)@ + node_lookups(*nt, depth as nat),
    decreases depth, 0nat, 0nat,
{
    match nt {
        NodeType::Node(n) => {
            match &n.op {
                SupportedOp::Nonlinear(l) => {
                    acc.push(*l);
                    proof {
                        assert(acc@ =~= old(acc)@ + node_lookups(*nt, depth as nat));
                    }
                },
                _ => {
                    proof {
                        assert(acc@ =~= old(acc)@ + node_lookups(*nt, depth as nat));
                    }
                },
            }
        },
        NodeType::SubGraph { model, .. } => {
            if depth == 0 {
                proof {
                    assert(acc@ =~= old(acc)@ + node_lookups(*nt, depth as nat));
                }
            } else {
                let g = &model.graph;
                let n = g.nodes.len();
                let mut i: usize = 0;
                while i < n
                    invariant
                        i <= n,
                        n == g.nodes@.len(),
                        depth >= 1,
                        acc@ == old(acc)@ + graph_lookups_prefix(
                            *g,
                            i as int,
                            (depth - 1) as nat,
                        ),
                    decreases n - i,
                {
                    append_node_lookups(acc, &g.nodes[i].1, depth - 1);
                    proof {
                        assert(acc@ =~= old(acc)@ + graph_lookups_prefix(
                            *g,
                            i + 1,
                            (depth - 1) as nat,
                        ));
                    }
                    i = i + 1;
                }
                proof {
                    assert(acc@ =~= old(acc)@ + node_lookups(*nt, depth as nat));
                }
            }
        },
    }
}

/// Collects the model's lookup operations in arena order and deduplicates
/// them, keeping first occurrences.
pub fn collect_required_lookups(m: &Model, depth: u32) -> (r: Vec<LookupOp>)
    ensures
        r@ == model_required_lookups(*m, depth as nat),
{
    let g = &m.graph;
    let n = g.nodes.len();
    let mut all: Vec<LookupOp> = Vec::new();
    let mut i: usize = 0;
    while i < n
        invariant
            i <= n,
            n == g.nodes@.len(),
            all@ == graph_lookups_prefix(*g, i as int, depth as nat),
        decreases n - i,
    {
        append_node_lookups(&mut all, &g.nodes[i].1, depth);
        proof {
            assert(all@ =~= graph_lookups_prefix(*g, i + 1, depth as nat));
        }
        i = i + 1;
    }
    let mut out: Vec<LookupOp> = Vec::new();
    let total = all.len();
    let mut j: usize = 0;
    while j < total
        invariant
            j <= total,
            total == all@.len(),
            out@ == first_dedup(all@.take(j as int)),
        decreases total - j,
    {
        let op = all[j];
        let mut seen: bool = false;
        let outlen = out.len();
        let mut t: usize = 0;
        while t < outlen
            invariant
                t <= outlen,
                outlen == out@.len(),
                seen == exists|u: int| 0 <= u < t && out@[u] == op,
            decreases outlen - t,
        {
            if out[t] == op {
                seen = true;
            }
            t = t + 1;
        }
        proof {
            assert(all@.take(j + 1).drop_last() =~= all@.take(j as int));
            assert(all@.take(j + 1).last() == all@[j as int]);
        }
        if !seen {
            proof {
                assert(!out@.contains(op));
            }
            out.push(op);
        } else {
            proof {
                assert(out@.contains(op));
            }
        }
        j = j + 1;
    }
    proof {
        assert(all@.take(total as int) =~= all@);
    }
    out
}

/// Row counts saturate here instead of overflowing; the cap is far above any
/// usable row budget, so capacity decisions are unaffected.
pub open spec fn size_cap() -> int {
    usize::MAX as int
}

/// Saturating value.
pub open spec fn sat(x: int) -> int {
    if x > size_cap() {
        size_cap()
    } else {
        x
    }
}

/// Saturating product of a shape's dimensions.
pub open spec fn sat_dims_product(dims: Seq<usize>) -> int
    decreases dims.len(),
{
    if dims.len() == 0 {
        1
    } else {
        sat(sat_dims_product(dims.drop_last()) * dims.last())
    }
}

/// Saturating element total of a list of shapes.
pub open spec fn sat_dims_list_total(dd: Seq<Vec<usize>>) -> int
    decreases dd.len(),
{
    if dd.len() == 0 {
        0
    } else {
        sat(sat_dims_list_total(dd.drop_last()) + sat_dims_product(dd.last()@))
    }
}

/// Rows a node's gate assignments consume: the element count of its output
/// tensors (a nested model is costed by its declared outputs).
pub open spec fn node_assignments(nt: NodeType) -> int {
    match nt {
        NodeType::Node(n) => sat_dims_product(n.out_dims@),
        NodeType::SubGraph { out_dims, .. } => sat_dims_list_total(out_dims@),
    }
}

/// Rows a node's constants consume.
pub open spec fn node_const_size(nt: NodeType) -> int {
    match nt {
        NodeType::Node(n) => match n.op {
            SupportedOp::Constant(t) => t.inner@.len() as int,
            SupportedOp::Linear(p) => match p {
                PolyOp::Conv { kernel, bias, .. } => sat(
                    kernel.inner@.len() + opt_tensor_len(bias),
                ),
                PolyOp::DeConv { kernel, bias, .. } => sat(
                    kernel.inner@.len() + opt_tensor_len(bias),
                ),
                _ => 0,
            },
            _ => 0,
        },
        NodeType::SubGraph { .. } => 0,
    }
}

/// The element count of an optional tensor.
pub open spec fn opt_tensor_len(t: Option<crate::supportedop::Tensor>) -> int {
    match t {
        Some(tt) => tt.inner@.len() as int,
        None => 0,
    }
}

/// Gate-assignment rows of the first `i` arena entries.
pub open spec fn graph_assignments_prefix(g: ParsedNodes, i: int) -> int
    decreases i,
{
    if i <= 0 {
        0
    } else {
        sat(graph_assignments_prefix(g, i - 1) + node_assignments(g.nodes@[i - 1].1))
    }
}

/// Constant rows of the first `i` arena entries.
pub open spec fn graph_const_prefix(g: ParsedNodes, i: int) -> int
    decreases i,
{
    if i <= 0 {
        0
    } else {
        sat(graph_const_prefix(g, i - 1) + node_const_size(g.nodes@[i - 1].1))
    }
}

/// Rows the first `i` distinct lookup tables consume: each table covers its
/// domain, split across `cols` columns.
pub open spec fn table_rows_prefix(ops: Seq<LookupOp>, s: int, lo: int, hi: int, cols: int, i: int) -> int
    decreases i,
{
    if i <= 0 {
        0
    } else {
        let here = match lookup_domain_spec(ops[i - 1], s, lo, hi) {
            Ok(iv) => sat((iv.1 - iv.0 + 1 + cols - 1) / cols),
            Err(_) => 0,
        };
        sat(table_rows_prefix(ops, s, lo, hi, cols, i - 1) + here)
    }
}

/// Every listed lookup operation has a coverable domain.
pub open spec fn tables_all_ok(ops: Seq<LookupOp>, s: int, lo: int, hi: int) -> bool {
    forall|j: int|
        0 <= j < ops.len() ==> !((#[trigger] lookup_domain_spec(ops[j], s, lo, hi)) matches Err(_))
}

/// Saturating addition on machine words.
fn sat_add_usize(a: usize, b: usize) -> (r: usize)
    ensures
        r as int == sat(a + b),
{
    a.saturating_add(b)
}

/// Saturating product of a shape's dimensions, as a machine word.
pub fn sat_dims_product_exec(dims: &Vec<usize>) -> (r: usize)
    ensures
        r as int == sat_dims_product(dims@),
{
    let n = dims.len();
    let mut acc: usize = 1;
    let mut i: usize = 0;
    while i < n
        invariant
            i <= n,
            n == dims@.len(),
            acc as int == sat_dims_product(dims@.take(i as int)),
        decreases n - i,
    {
        let d = dims[i];
        acc = match acc.checked_mul(d) {
            Some(v) => v,
            None => usize::MAX,
        };
        proof {
            assert(dims@.take(i + 1).drop_last() =~= dims@.take(i as int));
            assert(dims@.take(i + 1).last() == dims@[i as int]);
        }
        i = i + 1;
    }
    proof {
        assert(dims@.take(n as int) =~= dims@);
    }
    acc
}

/// Rows one node's gate assignments consume.
fn node_assignments_exec(nt: &NodeType) -> (r: usize)
    ensures
        r as int == node_assignments(*nt),
{
    match nt {
        NodeType::Node(n) => sat_dims_product_exec(&n.out_dims),
        NodeType::SubGraph { out_dims, .. } => {
            let m = out_dims.len();
            let mut acc: usize = 0;
            let mut i: usize = 0;
            while i < m
                invariant
                    i <= m,
                    m == out_dims@.len(),
                    acc as int == sat_dims_list_total(out_dims@.take(i as int)),
                decreases m - i,
            {
                let here = sat_dims_product_exec(&out_dims[i]);
                acc = sat_add_usize(acc, here);
                proof {
                    assert(out_dims@.take(i + 1).drop_last() =~= out_dims@.take(i as int));
                    assert(out_dims@.take(i + 1).last() == out_dims@[i as int]);
                }
                i = i + 1;
            }
            proof {
                assert(out_dims@.take(m as int) =~= out_dims@);
            }
            acc
        },
    }
}

/// Rows one node's constants consume.
fn node_const_exec(nt: &NodeType) -> (r: usize)
    ensures
        r as int == node_const_size(*nt),
{
    match nt {
        NodeType::Node(n) => {
            match &n.op {
                SupportedOp::Constant(t) => t.len(),
                SupportedOp::Linear(p) => {
                    match p {
                        PolyOp::Conv { kernel, bias, .. } => {
                            let b = match bias {
                                Some(bt) => bt.len(),
                                None => 0,
                            };
                            sat_add_usize(kernel.len(), b)
                        },
                        PolyOp::DeConv { kernel, bias, .. } => {
                            let b = match bias {
                                Some(bt) => bt.len(),
                                None => 0,
                            };
                            sat_add_usize(kernel.len(), b)
                        },
                        _ => 0,
                    }
                },
                _ => 0,
            }
        },
        NodeType::SubGraph { .. } => 0,
    }
}

/// Gate-assignment rows of the whole arena.
fn graph_assignments_total(g: &ParsedNodes) -> (r: usize)
    ensures
        r as int == graph_assignments_prefix(*g, g.nodes@.len() as int),
{
    let n = g.nodes.len();
    let mut acc: usize = 0;
    let mut i: usize = 0;
    while i < n
        invariant
            i <= n,
            n == g.nodes@.len(),
            acc as int == graph_assignments_prefix(*g, i as int),
        decreases n - i,
    {
        let here = node_assignments_exec(&g.nodes[i].1);
        acc = sat_add_usize(acc, here);
        i = i + 1;
    }
    acc
}

/// Constant rows of the whole arena.
fn graph_const_total(g: &ParsedNodes) -> (r: usize)
    ensures
        r as int == graph_const_prefix(*g, g.nodes@.len() as int),
{
    let n = g.nodes.len();
    let mut acc: usize = 0;
    let mut i: usize = 0;
    while i < n
        invariant
            i <= n,
            n == g.nodes@.len(),
            acc as int == graph_const_prefix(*g, i as int),
        decreases n - i,
    {
        let here = node_const_exec(&g.nodes[i].1);
        acc = sat_add_usize(acc, here);
        i = i + 1;
    }
    acc
}

/// Rows the distinct lookup tables consume, or the first domain failure.
fn table_rows_total(ops: &Vec<LookupOp>, s: Scale, lr: LookupRange, cols: usize) -> (r: Result<
    usize,
    DomainError,
>)
    requires
        forall|j: int| 0 <= j < ops@.len() ==> (#[trigger] ops@[j]).wf(),
        -64 <= s <= 64,
        lr.min <= lr.max,
        -0x4000000000000000 <= lr.min,
        lr.max <= 0x4000000000000000,
        1 <= cols,
    ensures
        match r {
            Ok(total) => total as int == table_rows_prefix(
                ops@,
                s as int,
                lr.min as int,
                lr.max as int,
                cols as int,
                ops@.len() as int,
            ) && tables_all_ok(ops@, s as int, lr.min as int, lr.max as int),
            Err(d) => exists|j: int|
                0 <= j < ops@.len() && lookup_domain_spec(
                    #[trigger] ops@[j],
                    s as int,
                    lr.min as int,
                    lr.max as int,
                ) == Err::<(int, int), DomainError>(d),
        },
{
    let n = ops.len();
    let mut acc: usize = 0;
    let mut i: usize = 0;
    while i < n
        invariant
            i <= n,
            n == ops@.len(),
            forall|j: int| 0 <= j < ops@.len() ==> (#[trigger] ops@[j]).wf(),
            -64 <= s <= 64,
            lr.min <= lr.max,
            -0x4000000000000000 <= lr.min,
            lr.max <= 0x4000000000000000,
            1 <= cols,
            acc as int == table_rows_prefix(
                ops@,
                s as int,
                lr.min as int,
                lr.max as int,
                cols as int,
                i as int,
            ),
            forall|j: int|
                0 <= j < i ==> !((#[trigger] lookup_domain_spec(
                    ops@[j],
                    s as int,
                    lr.min as int,
                    lr.max as int,
                )) matches Err(_)),
        decreases n - i,
    {
        let op = ops[i];
        match lookup_domain(&op, s, (lr.min, lr.max)) {
            Err(d) => {
                return Err(d);
            },
            Ok((a, b)) => {
                proof {
                    assert(a <= b);
                    assert(-0x4000000000000000 <= a);
                    assert(b <= 0x4000000000000000);
                }
                let width = (b - a + 1) as u128;
                let rows_u = (width + (cols as u128) - 1) / (cols as u128);
                let rows: usize = if rows_u > usize::MAX as u128 {
                    usize::MAX
                } else {
                    rows_u as usize
                };
                proof {
                    let spec_rows = ((b - a + 1) + cols - 1) / (cols as int);
                    assert(0 <= spec_rows <= b - a + 1) by {
                        vstd::arithmetic::div_mod::lemma_div_pos_is_pos(
                            (b - a + 1) + cols - 1,
                            cols as int,
                        );
                        assert((b - a + 1) + cols - 1 <= (b - a + 1) * cols) by (nonlinear_arith)
                            requires
                                b - a + 1 >= 1,
                                cols >= 1,
                        ;
                        vstd::arithmetic::div_mod::lemma_div_is_ordered(
                            (b - a + 1) + cols - 1,
                            (b - a + 1) * (cols as int),
                            cols as int,
                        );
                        assert((b - a + 1) * (cols as int) == (cols as int) * (b - a + 1))
                            by (nonlinear_arith);
                        vstd::arithmetic::div_mod::lemma_div_multiples_vanish(
                            b - a + 1,
                            cols as int,
                        );
                    }
                    assert(rows_u as int == spec_rows);
                    assert(rows as int == sat(spec_rows));
                }
                acc = sat_add_usize(acc, rows);
                i = i + 1;
            },
        }
    }
    Ok(acc)
}

/// The shape of the value an outlet produces.
pub open spec fn outlet_dims(g: ParsedNodes, o: (usize, usize)) -> Seq<usize> {
    match g.node_at(o.0) {
        NodeType::Node(n) => n.out_dims@,
        NodeType::SubGraph { out_dims, .. } => if (o.1 as int) < out_dims@.len() {
            out_dims@[o.1 as int]@
        } else {
            Seq::empty()
        },
    }
}

/// The scale of the value an outlet produces.
pub open spec fn outlet_scale(g: ParsedNodes, o: (usize, usize)) -> Scale {
    match g.node_at(o.0) {
        NodeType::Node(n) => n.out_scale,
        NodeType::SubGraph { out_scales, .. } => if (o.1 as int) < out_scales@.len() {
            out_scales@[o.1 as int]
        } else {
            0
        },
    }
}

impl ParsedNodes {
    /// The shape of the value an outlet produces.
    pub fn outlet_dims_exec(&self, o: (usize, usize)) -> (r: Vec<usize>)
        requires
            self.indices_strictly_sorted(),
            self.has_node(o.0),
        ensures
            r@ == outlet_dims(*self, o),
    {
        let p = match self.find_pos_pub(o.0) {
            Some(p) => p,
            None => {
                proof {
                    assert(false);
                }
                0
            },
        };
        match &self.nodes[p].1 {
            NodeType::Node(n) => copy_usizes(&n.out_dims),
            NodeType::SubGraph { out_dims, .. } => {
                if o.1 < out_dims.len() {
                    copy_usizes(&out_dims[o.1])
                } else {
                    Vec::new()
                }
            },
        }
    }

    /// The scale of the value an outlet produces.
    pub fn outlet_scale_exec(&self, o: (usize, usize)) -> (r: Scale)
        requires
            self.indices_strictly_sorted(),
            self.has_node(o.0),
        ensures
            r == outlet_scale(*self, o),
    {
        let p = match self.find_pos_pub(o.0) {
            Some(p) => p,
            None => {
                proof {
                    assert(false);
                }
                0
            },
        };
        match &self.nodes[p].1 {
            NodeType::Node(n) => n.out_scale,
            NodeType::SubGraph { out_scales, .. } => {
                if o.1 < out_scales.len() {
                    out_scales[o.1]
                } else {
                    0
                }
            },
        }
    }

    /// The position of the node with index `idx`, if any; in a sorted arena
    /// the position of `idx` itself.
    pub fn find_pos_pub(&self, idx: usize) -> (r: Option<usize>)
        requires
            self.indices_strictly_sorted(),
        ensures
            match r {
                Some(p) => p < self.nodes@.len() && self.nodes@[p as int].0 == idx && p as int
                    == self.pos_of(idx),
                None => !self.has_node(idx),
            },
    {
        let n = self.nodes.len();
        let mut i: usize = 0;
        while i < n
            invariant
                i <= n,
                n == self.nodes@.len(),
                self.indices_strictly_sorted(),
                forall|j: int| 0 <= j < i ==> self.nodes@[j].0 != idx,
            decreases n - i,
        {
            if self.nodes[i].0 == idx {
                proof {
                    let pi = self.pos_of(idx);
                    assert(0 <= pi < self.nodes@.len() && self.nodes@[pi].0 == idx);
                    lemma_pos_unique(self, pi, i as int);
                }
                return Some(i);
            }
            i = i + 1;
        }
        None
    }
}

/// A plain element-by-element copy of a shape vector.
fn copy_usizes(src: &Vec<usize>) -> (r: Vec<usize>)
    ensures
        r@ == src@,
{
    let n = src.len();
    let mut out: Vec<usize> = Vec::new();
    let mut i: usize = 0;
    while i < n
        invariant
            i <= n,
            n == src@.len(),
            out@ == src@.take(i as int),
        decreases n - i,
    {
        out.push(src[i]);
        proof {
            assert(out@ =~= src@.take(i + 1));
        }
        i = i + 1;
    }
    proof {
        assert(src@.take(n as int) =~= src@);
    }
    out
}

/// Total elements of the first `i` graph inputs.
pub open spec fn inputs_elems_prefix(g: ParsedNodes, i: int) -> int
    decreases i,
{
    if i <= 0 {
        0
    } else {
        sat(inputs_elems_prefix(g, i - 1) + sat_dims_product(outlet_dims(g, (g.inputs@[i - 1], 0))))
    }
}

/// Total elements of the first `i` graph outputs.
pub open spec fn outputs_elems_prefix(g: ParsedNodes, i: int) -> int
    decreases i,
{
    if i <= 0 {
        0
    } else {
        sat(outputs_elems_prefix(g, i - 1) + sat_dims_product(outlet_dims(g, g.outputs@[i - 1])))
    }
}

/// `2^e` as a row count.
pub fn pow2_usize(e: u32) -> (r: usize)
    requires
        e <= 31,
    ensures
        r as int == pow2(e as nat),
        1 <= r <= 0x80000000,
{
    let mut r: usize = 1;
    let mut i: u32 = 0;
    proof {
        lemma2_to64();
    }
    while i < e
        invariant
            i <= e,
            e <= 31,
            r as int == pow2(i as nat),
            1 <= r <= 0x80000000,
        decreases e - i,
    {
        proof {
            lemma_pow2_adds(i as nat, 1);
            lemma2_to64();
            if (i + 1) as nat != 31 {
                lemma_pow2_strictly_increases((i + 1) as nat, 31);
            }
        }
        r = r * 2;
        i = i + 1;
    }
    r
}

/// A node whose operator is outside the supported set.
pub open spec fn node_is_unknown(nt: NodeType) -> bool {
    match nt {
        NodeType::Node(n) => n.op matches SupportedOp::Unknown(_),
        NodeType::SubGraph { .. } => false,
    }
}

/// Context threaded explicitly through sizing, in place of ambient state:
/// the backend's blinding-row count, a version stamp, a timestamp, and the
/// check mode to record.
#[derive(Clone, Debug, PartialEq)]
pub struct SizingContext {
    /// Blinding rows the proving backend requires.
    pub num_blinding_factors: usize,
    /// Version stamp to record.
    pub version: String,
    /// Unix-time stamp to record, if any.
    pub timestamp: Option<u128>,
    /// Whether execution will perform runtime sanity checks.
    pub check_mode: CheckMode,
}

/// Total elements of the graph inputs.
fn inputs_elems_total(g: &ParsedNodes) -> (r: usize)
    requires
        g.indices_strictly_sorted(),
        g.io_ok(),
    ensures
        r as int == inputs_elems_prefix(*g, g.inputs@.len() as int),
{
    let n = g.inputs.len();
    let mut acc: usize = 0;
    let mut i: usize = 0;
    while i < n
        invariant
            i <= n,
            n == g.inputs@.len(),
            g.indices_strictly_sorted(),
            g.io_ok(),
            acc as int == inputs_elems_prefix(*g, i as int),
        decreases n - i,
    {
        let dims = g.outlet_dims_exec((g.inputs[i], 0));
        let here = sat_dims_product_exec(&dims);
        acc = sat_add_usize(acc, here);
        i = i + 1;
    }
    acc
}

/// Total elements of the graph outputs.
fn outputs_elems_total(g: &ParsedNodes) -> (r: usize)
    requires
        g.indices_strictly_sorted(),
        g.io_ok(),
    ensures
        r as int == outputs_elems_prefix(*g, g.outputs@.len() as int),
{
    let n = g.outputs.len();
    let mut acc: usize = 0;
    let mut i: usize = 0;
    while i < n
        invariant
            i <= n,
            n == g.outputs@.len(),
            g.indices_strictly_sorted(),
            g.io_ok(),
            acc as int == outputs_elems_prefix(*g, i as int),
        decreases n - i,
    {
        let dims = g.outlet_dims_exec(g.outputs[i]);
        let here = sat_dims_product_exec(&dims);
        acc = sat_add_usize(acc, here);
        i = i + 1;
    }
    acc
}

/// Walks the graph once and aggregates per-node costs into the global
/// circuit dimensions. Fails with `CapacityError` exactly when the rows the
/// circuit needs exceed the `2^logrows` budget; a need equal to the budget
/// succeeds.
pub fn size(model: &Model, run_args: RunArgs, ctx: SizingContext) -> (r: Result<
    GraphSettings,
    SizeError,
>)
    requires
        run_args.wf(),
        ctx.num_blinding_factors <= 0x10000,
        forall|j: int|
            0 <= j < model_required_lookups(*model, MAX_SUBGRAPH_DEPTH as nat).len() ==> (
            #[trigger] model_required_lookups(*model, MAX_SUBGRAPH_DEPTH as nat)[j]).wf(),
    ensures
        ({
            let g = model.graph;
            let lk = model_required_lookups(*model, MAX_SUBGRAPH_DEPTH as nat);
            let s_in = run_args.input_scale as int;
            let lo = run_args.lookup_range.min as int;
            let hi = run_args.lookup_range.max as int;
            let cols = run_args.num_inner_cols as int;
            let assigns = sat(
                graph_assignments_prefix(g, g.nodes@.len() as int) + table_rows_prefix(
                    lk,
                    s_in,
                    lo,
                    hi,
                    cols,
                    lk.len() as int,
                ),
            );
            let consts = graph_const_prefix(g, g.nodes@.len() as int);
            match r {
                Ok(s) => {
                    &&& s.run_args == run_args
                    &&& s.num_rows as int == pow2(run_args.logrows as nat)
                    &&& s.total_assignments as int == assigns
                    &&& s.total_const_size as int == consts
                    &&& s.required_lookups@ == lk
                    &&& s.check_mode == ctx.check_mode
                    &&& s.version == ctx.version
                    &&& s.num_blinding_factors == Some(ctx.num_blinding_factors)
                    &&& s.timestamp == ctx.timestamp
                    &&& s.total_assignments + s.total_const_size + ctx.num_blinding_factors
                        <= s.num_rows
                    &&& tables_all_ok(lk, s_in, lo, hi)
                    &&& g.indices_strictly_sorted() && g.all_deps_ok() && g.io_ok()
                    &&& forall|i: int| 0 <= i < g.nodes@.len() ==> !node_is_unknown(
                        #[trigger] g.nodes@[i].1,
                    )
                    &&& s.model_input_scales@.len() == g.inputs@.len()
                    &&& forall|j: int|
                        0 <= j < g.inputs@.len() ==> #[trigger] s.model_input_scales@[j]
                            == run_args.input_scale
                    &&& s.model_output_scales@.len() == g.outputs@.len()
                    &&& forall|j: int|
                        0 <= j < g.outputs@.len() ==> #[trigger] s.model_output_scales@[j]
                            == outlet_scale(g, g.outputs@[j])
                    &&& ({
                        let in_e = inputs_elems_prefix(g, g.inputs@.len() as int);
                        let out_e = outputs_elems_prefix(g, g.outputs@.len() as int);
                        let p1 = if (run_args.input_visibility matches Visibility::Hashed {
                            ..
                        }) {
                            sat(0 + in_e)
                        } else {
                            0
                        };
                        let p2 = if (run_args.param_visibility matches Visibility::Hashed {
                            ..
                        }) {
                            sat(p1 + consts)
                        } else {
                            p1
                        };
                        let p3 = if (run_args.output_visibility matches Visibility::Hashed {
                            ..
                        }) {
                            sat(p2 + out_e)
                        } else {
                            p2
                        };
                        let k1 = if (run_args.input_visibility matches Visibility::KZGCommit) {
                            sat(0 + in_e)
                        } else {
                            0
                        };
                        let k2 = if (run_args.param_visibility matches Visibility::KZGCommit) {
                            sat(k1 + consts)
                        } else {
                            k1
                        };
                        let k3 = if (run_args.output_visibility matches Visibility::KZGCommit) {
                            sat(k2 + out_e)
                        } else {
                            k2
                        };
                        &&& s.module_sizes.poseidon_rows as int == p3
                        &&& s.module_sizes.poseidon_instances@.len() == (if p3 > 0 {
                            1int
                        } else {
                            0int
                        })
                        &&& (p3 > 0 ==> s.module_sizes.poseidon_instances@[0] as int == p3)
                        &&& s.module_sizes.kzg@.len() == (if k3 > 0 {
                            1int
                        } else {
                            0int
                        })
                        &&& (k3 > 0 ==> s.module_sizes.kzg@[0] as int == k3)
                    })
                    &&& (if (run_args.output_visibility matches Visibility::Public) {
                        s.model_instance_shapes@.len() == g.outputs@.len() && forall|j: int|
                            0 <= j < g.outputs@.len() ==> (#[trigger] s.model_instance_shapes@[j])@
                                == outlet_dims(g, g.outputs@[j])
                    } else {
                        s.model_instance_shapes@.len() == 0
                    })
                },
                Err(e) => match e {
                    SizeError::Graph(ge) => match ge {
                        GraphError::ShapeError => !g.indices_strictly_sorted(),
                        GraphError::DanglingOutlet { .. } => !g.all_deps_ok() || !g.io_ok(),
                        GraphError::Cycle => g.indices_strictly_sorted() && g.all_deps_ok()
                            && exists|w: Set<usize>| crate::model::cycle_witness(g, w),
                    },
                    SizeError::Unsupported(u) => exists|i: int|
                        0 <= i < g.nodes@.len() && node_is_unknown(#[trigger] g.nodes@[i].1),
                    SizeError::Domain(d) => exists|j: int|
                        0 <= j < lk.len() && lookup_domain_spec(#[trigger] lk[j], s_in, lo, hi)
                            == Err::<(int, int), DomainError>(d),
                    SizeError::Capacity(c) => {
                        &&& c.available as int == pow2(run_args.logrows as nat)
                        &&& c.required as int == sat(
                            assigns + consts + ctx.num_blinding_factors,
                        )
                        &&& c.required > c.available
                    },
                },
            }
        }),
{
    let g = &model.graph;
    match g.validate() {
        Err(e) => {
            return Err(SizeError::Graph(e));
        },
        Ok(u) => {},
    }
    // refuse operators outside the supported set
    let n = g.nodes.len();
    let mut i: usize = 0;
    while i < n
        invariant
            i <= n,
            g == &model.graph,
            n == g.nodes@.len(),
            forall|j: int| 0 <= j < i ==> !node_is_unknown(#[trigger] g.nodes@[j].1),
        decreases n - i,
    {
        match &g.nodes[i].1 {
            NodeType::Node(nd) => {
                match &nd.op {
                    SupportedOp::Unknown(name) => {
                        proof {
                            assert(node_is_unknown(g.nodes@[i as int].1));
                            assert(exists|ii: int|
                                0 <= ii < model.graph.nodes@.len() && node_is_unknown(
                                    #[trigger] model.graph.nodes@[ii].1,
                                ));
                        }
                        return Err(
                            SizeError::Unsupported(UnsupportedOpError { name: name.clone() }),
                        );
                    },
                    _ => {},
                }
            },
            _ => {},
        }
        i = i + 1;
    }
    let lookups = collect_required_lookups(model, MAX_SUBGRAPH_DEPTH);
    let table_rows = match table_rows_total(
        &lookups,
        run_args.input_scale,
        run_args.lookup_range,
        run_args.num_inner_cols,
    ) {
        Err(d) => {
            return Err(SizeError::Domain(d));
        },
        Ok(t) => t,
    };
    let assigns = sat_add_usize(graph_assignments_total(g), table_rows);
    let consts = graph_const_total(g);
    let num_rows = pow2_usize(run_args.logrows);
    let required = sat_add_usize(sat_add_usize(assigns, consts), ctx.num_blinding_factors);
    if required > num_rows {
        proof {
            assert(required as int == sat(
                assigns as int + consts as int + ctx.num_blinding_factors as int,
            ));
        }
        return Err(
            SizeError::Capacity(CapacityError { required, available: num_rows }),
        );
    }
    proof {
        assert(required as int == sat(
            assigns as int + consts as int + ctx.num_blinding_factors as int,
        ));
        assert(assigns + consts + ctx.num_blinding_factors <= num_rows);
    }
    // informational fields
    let mut in_scales: Vec<Scale> = Vec::new();
    let n_in = g.inputs.len();
    let mut j: usize = 0;
    while j < n_in
        invariant
            j <= n_in,
            in_scales@.len() == j,
            forall|t: int| 0 <= t < j ==> #[trigger] in_scales@[t] == run_args.input_scale,
        decreases n_in - j,
    {
        in_scales.push(run_args.input_scale);
        j = j + 1;
    }
    let mut out_scales: Vec<Scale> = Vec::new();
    let n_out = g.outputs.len();
    let mut t: usize = 0;
    while t < n_out
        invariant
            t <= n_out,
            n_out == g.outputs@.len(),
            g.indices_strictly_sorted(),
            g.io_ok(),
            out_scales@.len() == t,
            forall|u: int|
                0 <= u < t ==> #[trigger] out_scales@[u] == outlet_scale(*g, g.outputs@[u]),
        decreases n_out - t,
    {
        let o = g.outputs[t];
        let sc = g.outlet_scale_exec(o);
        out_scales.push(sc);
        t = t + 1;
    }
    let mut shapes: Vec<Vec<usize>> = Vec::new();
    match &run_args.output_visibility {
        Visibility::Public => {
            let mut u: usize = 0;
            while u < n_out
                invariant
                    u <= n_out,
                    g == &model.graph,
                    n_out == g.outputs@.len(),
                    g.indices_strictly_sorted(),
                    g.io_ok(),
                    shapes@.len() == u,
                    forall|j: int|
                        0 <= j < u ==> (#[trigger] shapes@[j])@ == outlet_dims(
                            model.graph,
                            g.outputs@[j],
                        ),
                decreases n_out - u,
            {
                shapes.push(g.outlet_dims_exec(g.outputs[u]));
                u = u + 1;
            }
        },
        _ => {},
    }
    // auxiliary module costs
    let in_elems = inputs_elems_total(g);
    let out_elems = outputs_elems_total(g);
    let mut pos_rows: usize = 0;
    let mut kzg_cells: usize = 0;
    if run_args.input_visibility.is_hashed() {
        pos_rows = sat_add_usize(pos_rows, in_elems);
    }
    if run_args.param_visibility.is_hashed() {
        pos_rows = sat_add_usize(pos_rows, consts);
    }
    if run_args.output_visibility.is_hashed() {
        pos_rows = sat_add_usize(pos_rows, out_elems);
    }
    if run_args.input_visibility.is_kzg() {
        kzg_cells = sat_add_usize(kzg_cells, in_elems);
    }
    if run_args.param_visibility.is_kzg() {
        kzg_cells = sat_add_usize(kzg_cells, consts);
    }
    if run_args.output_visibility.is_kzg() {
        kzg_cells = sat_add_usize(kzg_cells, out_elems);
    }
    let mut kzg: Vec<usize> = Vec::new();
    if kzg_cells > 0 {
        kzg.push(kzg_cells);
    }
    let mut pos_inst: Vec<usize> = Vec::new();
    if pos_rows > 0 {
        pos_inst.push(pos_rows);
    }
    Ok(
        GraphSettings {
            run_args,
            num_rows,
            total_assignments: assigns,
            total_const_size: consts,
            model_instance_shapes: shapes,
            model_output_scales: out_scales,
            model_input_scales: in_scales,
            module_sizes: ModuleSizes {
                kzg,
                poseidon_rows: pos_rows,
                poseidon_instances: pos_inst,
            },
            required_lookups: lookups,
            check_mode: ctx.check_mode,
            version: ctx.version,
            num_blinding_factors: Some(ctx.num_blinding_factors),
            timestamp: ctx.timestamp,
        },
    )
}

impl Visibility {
    /// Whether values of the category are committed through the hash module.
    pub fn is_hashed(&self) -> (r: bool)
        ensures
            r == (self matches Visibility::Hashed { .. }),
    {
        match self {
            Visibility::Hashed { .. } => true,
            _ => false,
        }
    }

    /// Whether values of the category are committed through the polynomial
    /// commitment module.
    pub fn is_kzg(&self) -> (r: bool)
        ensures
            r == (self matches Visibility::KZGCommit),
    {
        match self {
            Visibility::KZGCommit => true,
            _ => false,
        }
    }
}

} // verus!

//! The computational-graph data model: nodes, subgraphs, visibility policy,
//! structural validation and deterministic topological iteration.

use vstd::prelude::*;
use vstd::seq_lib::*;
use crate::scale::Scale;
use crate::supportedop::SupportedOp;

verus! {

/// A reference to one output slot of a node: `(node_index, slot_index)`.
pub type Outlet = (usize, usize);

/// Classification of one data category as seen by the proof system.
#[derive(Clone, Debug, PartialEq, Eq)]
pub enum Visibility {
    /// Known only to the prover; absent from the proof's public values.
    Private,
    /// Sent in the proof submitted for verification.
    Public,
    /// Committed to by an algebraic hash over the listed outlets.
    Hashed { hash_is_public: bool, outlets: Vec<usize> },
    /// Committed to with a polynomial commitment.
    KZGCommit,
    /// Assigned as a circuit constant.
    Fixed,
}

/// Invalid visibility configuration.
#[derive(Clone, Copy, Debug, PartialEq, Eq, Structural)]
pub enum ConfigError {
    /// A hashed visibility must name at least one outlet.
    EmptyHashedOutlets,
}

impl Visibility {
    /// A hashed visibility must name at least one outlet.
    pub open spec fn wf(&self) -> bool {
        match self {
            Visibility::Hashed { outlets, .. } => outlets@.len() > 0,
            _ => true,
        }
    }

    /// The only way the library builds a `Hashed` visibility; refuses an
    /// empty outlet list.
    pub fn new_hashed(hash_is_public: bool, outlets: Vec<usize>) -> (r: Result<
        Visibility,
        ConfigError,
    >)
        ensures
            match r {
                Ok(v) => v == (Visibility::Hashed { hash_is_public, outlets }) && v.wf(),
                Err(e) => e == ConfigError::EmptyHashedOutlets && outlets@.len() == 0,
            },
    {
        if outlets.len() == 0 {
            Err(ConfigError::EmptyHashedOutlets)
        } else {
            Ok(Visibility::Hashed { hash_is_public, outlets })
        }
    }

    /// True for the visibilities whose values are committed through an
    /// auxiliary module (hash or polynomial commitment).
    pub fn requires_processing(&self) -> (r: bool)
        ensures
            r == self.spec_requires_processing(),
    {
        match self {
            Visibility::Hashed { .. } => true,
            Visibility::KZGCommit => true,
            _ => false,
        }
    }

    /// Whether the category's values go through an auxiliary commitment
    /// module.
    pub open spec fn spec_requires_processing(&self) -> bool {
        match self {
            Visibility::Hashed { .. } => true,
            Visibility::KZGCommit => true,
            _ => false,
        }
    }
}

/// The data categories a visibility is configured for.
#[derive(Clone, Copy, Debug, PartialEq, Eq, Structural)]
pub enum VarCategory {
    Input,
    Params,
    Output,
}

/// One `Visibility` for each of the model's data categories.
#[derive(Clone, Debug, PartialEq, Eq)]
pub struct VarVisibility {
    pub input: Visibility,
    pub params: Visibility,
    pub output: Visibility,
}

impl VarVisibility {
    /// All three category visibilities are well formed.
    pub open spec fn wf(&self) -> bool {
        self.input.wf() && self.params.wf() && self.output.wf()
    }

    /// Pure lookup of the visibility configured for a category.
    pub fn get(&self, cat: VarCategory) -> (r: &Visibility)
        ensures
            r == self.spec_get(cat),
    {
        match cat {
            VarCategory::Input => &self.input,
            VarCategory::Params => &self.params,
            VarCategory::Output => &self.output,
        }
    }

    /// The visibility configured for a category.
    pub open spec fn spec_get(&self, cat: VarCategory) -> Visibility {
        match cat {
            VarCategory::Input => self.input,
            VarCategory::Params => self.params,
            VarCategory::Output => self.output,
        }
    }
}

/// How a subgraph consumes a parent value across iterations.
#[derive(Clone, Debug, PartialEq, Eq)]
pub enum InputMapping {
    /// The same value every iteration.
    Full,
    /// The previous iteration's designated output, fed back.
    State,
    /// The parent tensor split along `axis` into chunks of size `chunk`,
    /// one chunk per iteration.
    Stacked { axis: usize, chunk: usize },
}

/// How a subgraph's per-iteration outputs are assembled.
#[derive(Clone, Debug, PartialEq, Eq)]
pub enum OutputMapping {
    /// Only the final iteration's value is kept.
    Single { outlet: usize, is_state: bool },
    /// Every iteration's value, concatenated along `axis`.
    Stacked { outlet: usize, axis: usize, is_state: bool },
}

/// A leaf operation: its inputs, operator, and output scale and shape.
#[derive(Clone, Debug)]
pub struct Node {
    pub inputs: Vec<Outlet>,
    pub op: SupportedOp,
    pub out_scale: Scale,
    pub out_dims: Vec<usize>,
}

/// A node of the graph: a leaf operation or a nested subgraph.
pub enum NodeType {
    /// A leaf operation.
    Node(Node),
    /// A nested model run for one or more iterations.
    SubGraph {
        model: Box<Model>,
        inputs: Vec<Outlet>,
        idx: usize,
        output_mappings: Vec<Vec<OutputMapping>>,
        input_mappings: Vec<InputMapping>,
        out_dims: Vec<Vec<usize>>,
        out_scales: Vec<Scale>,
    },
}

/// The outlets a node reads from (in the enclosing graph).
pub open spec fn dep_outlets(nt: NodeType) -> Seq<Outlet> {
    match nt {
        NodeType::Node(n) => n.inputs@,
        NodeType::SubGraph { inputs, .. } => inputs@,
    }
}

/// The number of output slots a node exposes.
pub open spec fn spec_num_outputs(nt: NodeType) -> int {
    match nt {
        NodeType::Node(_) => 1,
        NodeType::SubGraph { out_dims, .. } => out_dims@.len() as int,
    }
}

/// The outlets a node reads from.
pub fn input_outlets(nt: &NodeType) -> (r: &Vec<Outlet>)
    ensures
        r@ == dep_outlets(*nt),
{
    match nt {
        NodeType::Node(n) => &n.inputs,
        NodeType::SubGraph { inputs, .. } => inputs,
    }
}

/// The number of output slots a node exposes.
pub fn num_outputs(nt: &NodeType) -> (r: usize)
    ensures
        r as int == spec_num_outputs(*nt),
{
    match nt {
        NodeType::Node(_) => 1,
        NodeType::SubGraph { out_dims, .. } => out_dims.len(),
    }
}

/// A structural defect of the input graph.
#[derive(Clone, Copy, Debug, PartialEq, Eq, Structural)]
pub enum GraphError {
    /// An outlet references a missing node or an out-of-range slot.
    DanglingOutlet { node: usize, slot: usize },
    /// The node dependencies are not acyclic.
    Cycle,
    /// Malformed structure: duplicated or unsorted node indices, or
    /// disagreeing iteration shapes.
    ShapeError,
}

/// An ordered node arena: a sparse map from node index to node, kept as an
/// index-sorted vector, plus the graph's input nodes and output outlets.
pub struct ParsedNodes {
    /// `(node_index, node)` pairs, strictly increasing in `node_index`.
    pub nodes: Vec<(usize, NodeType)>,
    /// Indices of the nodes that receive the graph's inputs.
    pub inputs: Vec<usize>,
    /// The outlets whose values are the graph's outputs.
    pub outputs: Vec<Outlet>,
}

/// A computational graph plus its visibility policy.
pub struct Model {
    pub graph: ParsedNodes,
    pub visibility: VarVisibility,
}

impl ParsedNodes {
    /// Node indices appear strictly increasing (so each index is unique).
    pub open spec fn indices_strictly_sorted(&self) -> bool {
        forall|i: int, j: int|
            0 <= i < j < self.nodes@.len() ==> self.nodes@[i].0 < self.nodes@[j].0
    }

    /// A node with index `idx` exists.
    pub open spec fn has_node(&self, idx: usize) -> bool {
        exists|i: int| 0 <= i < self.nodes@.len() && self.nodes@[i].0 == idx
    }

    /// The position of the node with index `idx` in the arena.
    pub open spec fn pos_of(&self, idx: usize) -> int {
        choose|i: int| 0 <= i < self.nodes@.len() && self.nodes@[i].0 == idx
    }

    /// The node with index `idx`.
    pub open spec fn node_at(&self, idx: usize) -> NodeType {
        self.nodes@[self.pos_of(idx)].1
    }

    /// `o` resolves to an existing node and a slot within its output arity.
    pub open spec fn outlet_ok(&self, o: Outlet) -> bool {
        self.has_node(o.0) && (o.1 as int) < spec_num_outputs(self.node_at(o.0))
    }

    /// Every outlet read by the node at position `i` resolves.
    pub open spec fn deps_ok_at(&self, i: int) -> bool {
        forall|k: int|
            0 <= k < dep_outlets(self.nodes@[i].1).len() ==> self.outlet_ok(
                dep_outlets(self.nodes@[i].1)[k],
            )
    }

    /// Every outlet read by any node resolves.
    pub open spec fn all_deps_ok(&self) -> bool {
        forall|i: int| 0 <= i < self.nodes@.len() ==> self.deps_ok_at(i)
    }

    /// The graph's declared inputs and outputs resolve.
    pub open spec fn io_ok(&self) -> bool {
        &&& forall|i: int| 0 <= i < self.inputs@.len() ==> self.has_node(self.inputs@[i])
        &&& forall|i: int| 0 <= i < self.outputs@.len() ==> self.outlet_ok(self.outputs@[i])
    }
}

/// The `k`-th outlet read by the node at place `p` of `ord` was produced by
/// a node listed earlier in `ord`.
pub open spec fn dep_before(g: ParsedNodes, ord: Seq<usize>, p: int, k: int) -> bool {
    exists|q: int| 0 <= q < p && ord[q] == dep_outlets(g.node_at(ord[p]))[k].0
}

/// Every listed node appears after all nodes it reads from: for `ord[p]`
/// reading from outlet `(m, _)`, some `ord[q]` with `q < p` is `m`.
pub open spec fn topo_prefix_ok(g: ParsedNodes, ord: Seq<usize>) -> bool {
    forall|p: int, k: int|
        0 <= p < ord.len() && 0 <= k < dep_outlets(g.node_at(ord[p])).len()
            ==> #[trigger] dep_before(g, ord, p, k)
}

/// The `k`-th outlet read by node `idx` was produced by a node listed in
/// `ord`.
pub open spec fn dep_in(g: ParsedNodes, ord: Seq<usize>, idx: usize, k: int) -> bool {
    exists|q: int| 0 <= q < ord.len() && ord[q] == dep_outlets(g.node_at(idx))[k].0
}

/// `ord` lists every node exactly once, and every node appears after all
/// nodes it reads from.
pub open spec fn is_topo_order(g: ParsedNodes, ord: Seq<usize>) -> bool {
    &&& ord.len() == g.nodes@.len()
    &&& ord.no_duplicates()
    &&& forall|p: int| 0 <= p < ord.len() ==> g.has_node(ord[p])
    &&& topo_prefix_ok(g, ord)
}

/// Appending a node whose read outlets all already stand in `ord` keeps the
/// order property.
proof fn lemma_topo_prefix_push(g: ParsedNodes, ord: Seq<usize>, idx: usize)
    requires
        topo_prefix_ok(g, ord),
        forall|k: int|
            0 <= k < dep_outlets(g.node_at(idx)).len() ==> #[trigger] dep_in(g, ord, idx, k),
    ensures
        topo_prefix_ok(g, ord.push(idx)),
{
    let ord2 = ord.push(idx);
    assert forall|p: int, k: int|
        0 <= p < ord2.len() && 0 <= k < dep_outlets(g.node_at(ord2[p])).len() implies #[trigger]
        dep_before(g, ord2, p, k) by {
        if p == ord.len() as int {
            assert(ord2[p] == idx);
            assert(dep_in(g, ord, idx, k));
            let q0 = choose|q: int|
                0 <= q < ord.len() && ord[q] == dep_outlets(g.node_at(idx))[k].0;
            assert(ord2[q0] == ord[q0]);
            assert(ord2[q0] == dep_outlets(g.node_at(ord2[p]))[k].0);
        } else {
            assert(ord2[p] == ord[p]);
            assert(dep_before(g, ord, p, k));
            let q0 = choose|q: int| 0 <= q < p && ord[q] == dep_outlets(g.node_at(ord[p]))[k].0;
            assert(ord2[q0] == ord[q0]);
            assert(ord2[q0] == dep_outlets(g.node_at(ord2[p]))[k].0);
        }
    }
}

/// A nonempty set of nodes each of which reads from a node of the set:
/// direct evidence that no topological order exists.
pub open spec fn cycle_witness(g: ParsedNodes, s: Set<usize>) -> bool {
    &&& exists|x: usize| s.contains(x)
    &&& forall|x: usize| s.contains(x) ==> g.has_node(x)
    &&& forall|x: usize|
        s.contains(x) ==> exists|k: int|
            0 <= k < dep_outlets(g.node_at(x)).len() && s.contains(
                #[trigger] dep_outlets(g.node_at(x))[k].0,
            )
}

/// In a sorted arena each node index occurs at one position only.
pub proof fn lemma_pos_unique(g: &ParsedNodes, p1: int, p2: int)
    requires
        g.indices_strictly_sorted(),
        0 <= p1 < g.nodes@.len(),
        0 <= p2 < g.nodes@.len(),
        g.nodes@[p1].0 == g.nodes@[p2].0,
    ensures
        p1 == p2,
{
}

/// The number of `true` entries.
spec fn count_true(s: Seq<bool>) -> int
    decreases s.len(),
{
    if s.len() == 0 {
        0
    } else {
        count_true(s.drop_last()) + if s.last() {
            1int
        } else {
            0int
        }
    }
}

/// Setting a `false` entry to `true` raises the count by one.
proof fn lemma_count_true_update(s: Seq<bool>, i: int)
    requires
        0 <= i < s.len(),
        !s[i],
    ensures
        count_true(s.update(i, true)) == count_true(s) + 1,
    decreases s.len(),
{
    let t = s.update(i, true);
    if i == s.len() - 1 {
        assert(t.drop_last() =~= s.drop_last());
    } else {
        assert(t.drop_last() =~= s.drop_last().update(i, true));
        lemma_count_true_update(s.drop_last(), i);
    }
}

/// If every entry is `true` the count is the length.
proof fn lemma_count_true_full(s: Seq<bool>)
    requires
        forall|i: int| 0 <= i < s.len() ==> s[i],
    ensures
        count_true(s) == s.len(),
    decreases s.len(),
{
    if s.len() > 0 {
        lemma_count_true_full(s.drop_last());
    }
}

impl ParsedNodes {
    /// The position of the node with index `idx`, if any.
    fn find_pos(&self, idx: usize) -> (r: Option<usize>)
        ensures
            match r {
                Some(p) => p < self.nodes@.len() && self.nodes@[p as int].0 == idx,
                None => !self.has_node(idx),
            },
    {
        let n = self.nodes.len();
        let mut i: usize = 0;
        while i < n
            invariant
                i <= n,
                n == self.nodes@.len(),
                forall|j: int| 0 <= j < i ==> self.nodes@[j].0 != idx,
            decreases n - i,
        {
            if self.nodes[i].0 == idx {
                return Some(i);
            }
            i = i + 1;
        }
        None
    }

    /// Checks that node indices are strictly sorted (hence unique).
    fn check_sorted(&self) -> (r: bool)
        ensures
            r == self.indices_strictly_sorted(),
    {
        let n = self.nodes.len();
        let mut i: usize = 1;
        while i < n
            invariant
                1 <= i <= n || n == 0,
                n == self.nodes@.len(),
                forall|a: int, b: int| 0 <= a < b < i ==> self.nodes@[a].0 < self.nodes@[b].0,
            decreases n - i,
        {
            if self.nodes[i - 1].0 >= self.nodes[i].0 {
                assert(!self.indices_strictly_sorted());
                return false;
            }
            assert forall|a: int, b: int| 0 <= a < b < i + 1 implies self.nodes@[a].0
                < self.nodes@[b].0 by {
                if b == i {
                    assert(self.nodes@[a].0 <= self.nodes@[i - 1].0);
                }
            }
            i = i + 1;
        }
        true
    }

    /// All outlets read by the node at position `i` lead to already-placed
    /// nodes.
    pub open spec fn spec_ready(&self, i: int, placed: Seq<bool>) -> bool {
        forall|k: int|
            0 <= k < dep_outlets(self.nodes@[i].1).len() ==> placed[self.pos_of(
                #[trigger] dep_outlets(self.nodes@[i].1)[k].0,
            )]
    }

    /// Whether every dependency of the node at position `i` is placed.
    fn deps_ready(&self, i: usize, placed: &Vec<bool>) -> (r: bool)
        requires
            self.indices_strictly_sorted(),
            self.all_deps_ok(),
            i < self.nodes@.len(),
            placed@.len() == self.nodes@.len(),
        ensures
            r == self.spec_ready(i as int, placed@),
    {
        let deps = input_outlets(&self.nodes[i].1);
        let m = deps.len();
        let mut k: usize = 0;
        while k < m
            invariant
                k <= m,
                i < self.nodes@.len(),
                self.indices_strictly_sorted(),
                self.all_deps_ok(),
                placed@.len() == self.nodes@.len(),
                m == dep_outlets(self.nodes@[i as int].1).len(),
                deps@ == dep_outlets(self.nodes@[i as int].1),
                forall|kk: int|
                    0 <= kk < k ==> placed@[self.pos_of(
                        #[trigger] dep_outlets(self.nodes@[i as int].1)[kk].0,
                    )],
            decreases m - k,
        {
            let o = deps[k];
            proof {
                assert(self.deps_ok_at(i as int));
                assert(self.outlet_ok(dep_outlets(self.nodes@[i as int].1)[k as int]));
            }
            match self.find_pos(o.0) {
                None => {
                    proof {
                        assert(false);
                    }
                    return false;
                },
                Some(p) => {
                    proof {
                        let pi = self.pos_of(o.0);
                        assert(0 <= pi < self.nodes@.len() && self.nodes@[pi].0 == o.0);
                        lemma_pos_unique(self, p as int, pi);
                    }
                    if !placed[p] {
                        return false;
                    }
                },
            }
            k = k + 1;
        }
        true
    }

    /// Checks that every outlet read by any node resolves.
    fn check_deps(&self) -> (r: Result<(), GraphError>)
        requires
            self.indices_strictly_sorted(),
        ensures
            match r {
                Ok(u) => self.all_deps_ok(),
                Err(e) => !self.all_deps_ok() && (e matches GraphError::DanglingOutlet { .. }),
            },
    {
        let n = self.nodes.len();
        let mut i: usize = 0;
        while i < n
            invariant
                i <= n,
                n == self.nodes@.len(),
                self.indices_strictly_sorted(),
                forall|j: int| 0 <= j < i ==> self.deps_ok_at(j),
            decreases n - i,
        {
            let deps = input_outlets(&self.nodes[i].1);
            let m = deps.len();
            let mut k: usize = 0;
            while k < m
                invariant
                    k <= m,
                    i < n,
                    n == self.nodes@.len(),
                    self.indices_strictly_sorted(),
                    m == dep_outlets(self.nodes@[i as int].1).len(),
                    deps@ == dep_outlets(self.nodes@[i as int].1),
                    forall|kk: int|
                        0 <= kk < k ==> self.outlet_ok(
                            #[trigger] dep_outlets(self.nodes@[i as int].1)[kk],
                        ),
                decreases m - k,
            {
                let o = deps[k];
                match self.find_pos(o.0) {
                    None => {
                        proof {
                            assert(!self.outlet_ok(dep_outlets(self.nodes@[i as int].1)[k as int]));
                            assert(!self.deps_ok_at(i as int));
                        }
                        return Err(GraphError::DanglingOutlet { node: o.0, slot: o.1 });
                    },
                    Some(p) => {
                        let nouts = num_outputs(&self.nodes[p].1);
                        proof {
                            let pi = self.pos_of(o.0);
                            assert(0 <= pi < self.nodes@.len() && self.nodes@[pi].0 == o.0);
                            lemma_pos_unique(self, p as int, pi);
                        }
                        if o.1 >= nouts {
                            proof {
                                assert(!self.outlet_ok(
                                    dep_outlets(self.nodes@[i as int].1)[k as int],
                                ));
                                assert(!self.deps_ok_at(i as int));
                            }
                            return Err(GraphError::DanglingOutlet { node: o.0, slot: o.1 });
                        }
                    },
                }
                k = k + 1;
            }
            i = i + 1;
        }
        Ok(())
    }

    /// Checks that the declared graph inputs and outputs resolve.
    fn check_io(&self) -> (r: Result<(), GraphError>)
        requires
            self.indices_strictly_sorted(),
        ensures
            match r {
                Ok(u) => self.io_ok(),
                Err(e) => !self.io_ok() && (e matches GraphError::DanglingOutlet { .. }),
            },
    {
        let ni = self.inputs.len();
        let mut i: usize = 0;
        while i < ni
            invariant
                i <= ni,
                ni == self.inputs@.len(),
                forall|j: int| 0 <= j < i ==> self.has_node(#[trigger] self.inputs@[j]),
            decreases ni - i,
        {
            let idx = self.inputs[i];
            match self.find_pos(idx) {
                None => {
                    return Err(GraphError::DanglingOutlet { node: idx, slot: 0 });
                },
                Some(_) => {},
            }
            i = i + 1;
        }
        let no = self.outputs.len();
        let mut j: usize = 0;
        while j < no
            invariant
                j <= no,
                no == self.outputs@.len(),
                self.indices_strictly_sorted(),
                forall|jj: int| 0 <= jj < self.inputs@.len() ==> self.has_node(
                    #[trigger] self.inputs@[jj],
                ),
                forall|jj: int| 0 <= jj < j ==> self.outlet_ok(#[trigger] self.outputs@[jj]),
            decreases no - j,
        {
            let o = self.outputs[j];
            match self.find_pos(o.0) {
                None => {
                    return Err(GraphError::DanglingOutlet { node: o.0, slot: o.1 });
                },
                Some(p) => {
                    let nouts = num_outputs(&self.nodes[p].1);
                    proof {
                        let pi = self.pos_of(o.0);
                        assert(0 <= pi < self.nodes@.len() && self.nodes@[pi].0 == o.0);
                        lemma_pos_unique(self, p as int, pi);
                    }
                    if o.1 >= nouts {
                        return Err(GraphError::DanglingOutlet { node: o.0, slot: o.1 });
                    }
                },
            }
            j = j + 1;
        }
        Ok(())
    }

    /// Produces a deterministic topological order of the node indices: every
    /// node appears after all nodes it reads from, ties among ready nodes
    /// broken by arena position (hence by node index) for reproducibility.
    /// Fails with `ShapeError` on unsorted or duplicated node indices,
    /// `DanglingOutlet` if some read outlet does not resolve, and `Cycle` if
    /// the dependencies admit no order, in which case a nonempty set of
    /// mutually dependent nodes exists.
    pub fn topological_order(&self) -> (r: Result<Vec<usize>, GraphError>)
        ensures
            match r {
                Ok(ord) => self.indices_strictly_sorted() && self.all_deps_ok() && is_topo_order(
                    *self,
                    ord@,
                ) && !(exists|s: Set<usize>| cycle_witness(*self, s)),
                Err(e) => match e {
                    GraphError::ShapeError => !self.indices_strictly_sorted(),
                    GraphError::DanglingOutlet { .. } => self.indices_strictly_sorted()
                        && !self.all_deps_ok(),
                    GraphError::Cycle => self.indices_strictly_sorted() && self.all_deps_ok()
                        && exists|s: Set<usize>| cycle_witness(*self, s),
                },
            },
    {
        if !self.check_sorted() {
            return Err(GraphError::ShapeError);
        }
        match self.check_deps() {
            Err(e) => {
                return Err(e);
            },
            Ok(u) => {},
        }
        let n = self.nodes.len();
        let mut placed: Vec<bool> = Vec::new();
        let mut ii: usize = 0;
        while ii < n
            invariant
                ii <= n,
                placed@.len() == ii,
                forall|j: int| 0 <= j < ii ==> !placed@[j],
            decreases n - ii,
        {
            placed.push(false);
            ii = ii + 1;
        }
        let mut ord: Vec<usize> = Vec::new();
        let ghost mut gp: Seq<int> = Seq::empty();
        proof {
            assert(count_true(placed@) == 0) by {
                lemma_count_true_zero(placed@);
            }
        }
        while ord.len() < n
            invariant
                n == self.nodes@.len(),
                self.indices_strictly_sorted(),
                self.all_deps_ok(),
                placed@.len() == n,
                gp.len() == ord@.len(),
                ord@.len() <= n,
                count_true(placed@) == ord@.len() as int,
                forall|p: int|
                    0 <= p < gp.len() ==> 0 <= #[trigger] gp[p] < n && placed@[gp[p]]
                        && self.nodes@[gp[p]].0 == ord@[p],
                forall|i: int|
                    0 <= i < n && #[trigger] placed@[i] ==> exists|p: int|
                        0 <= p < gp.len() && gp[p] == i,
                ord@.no_duplicates(),
                topo_prefix_ok(*self, ord@),
            decreases n - ord@.len(),
        {
            let mut i: usize = 0;
            let mut found: bool = false;
            let mut pick: usize = 0;
            while i < n
                invariant
                    i <= n,
                    n == self.nodes@.len(),
                    self.indices_strictly_sorted(),
                    self.all_deps_ok(),
                    placed@.len() == n,
                    !found ==> forall|j: int|
                        0 <= j < i && !placed@[j] ==> !self.spec_ready(j, placed@),
                    found ==> pick < n && !placed@[pick as int] && self.spec_ready(
                        pick as int,
                        placed@,
                    ),
                decreases n - i,
            {
                if !found && !placed[i] {
                    if self.deps_ready(i, &placed) {
                        found = true;
                        pick = i;
                    }
                }
                i = i + 1;
            }
            if !found {
                proof {
                    if forall|j: int| 0 <= j < n ==> placed@[j] {
                        lemma_count_true_full(placed@);
                    }
                    assert(exists|j: int| 0 <= j < n && !placed@[j]);
                    let witness = Set::new(
                        |x: usize|
                            exists|j: int|
                                0 <= j < n && !placed@[j] && self.nodes@[j].0 == x,
                    );
                    let j0 = choose|j: int| 0 <= j < n && !placed@[j];
                    assert(witness.contains(self.nodes@[j0].0));
                    assert forall|x: usize| witness.contains(x) implies exists|k: int|
                        0 <= k < dep_outlets(self.node_at(x)).len() && witness.contains(
                            #[trigger] dep_outlets(self.node_at(x))[k].0,
                        ) by {
                        let j = choose|j: int|
                            0 <= j < n && !placed@[j] && self.nodes@[j].0 == x;
                        let pj = self.pos_of(x);
                        assert(self.has_node(x));
                        assert(0 <= pj < n && self.nodes@[pj].0 == x);
                        lemma_pos_unique(self, j, pj);
                        assert(!self.spec_ready(j, placed@));
                        let k = choose|k: int|
                            0 <= k < dep_outlets(self.nodes@[j].1).len() && !placed@[self.pos_of(
                                dep_outlets(self.nodes@[j].1)[k].0,
                            )];
                        let d0 = dep_outlets(self.nodes@[j].1)[k].0;
                        assert(self.deps_ok_at(j));
                        assert(self.outlet_ok(dep_outlets(self.nodes@[j].1)[k]));
                        let pd = self.pos_of(d0);
                        assert(0 <= pd < n && self.nodes@[pd].0 == d0);
                        assert(witness.contains(d0));
                    }
                    assert(cycle_witness(*self, witness));
                }
                return Err(GraphError::Cycle);
            }
            let idx = self.nodes[pick].0;
            let ghost old_placed = placed@;
            let ghost old_ord = ord@;
            placed.set(pick, true);
            ord.push(idx);
            proof {
                let old_gp = gp;
                gp = gp.push(pick as int);
                lemma_count_true_update(old_placed, pick as int);
                let newlen = ord@.len() as int;
                assert(forall|q: int| 0 <= q < old_gp.len() ==> gp[q] == old_gp[q]);
                assert(gp[newlen - 1] == pick as int);
                // every placed position is covered by the order
                assert forall|i2: int|
                    0 <= i2 < n && #[trigger] placed@[i2] implies exists|p: int|
                    0 <= p < gp.len() && gp[p] == i2 by {
                    if i2 == pick as int {
                        assert(gp[newlen - 1] == i2);
                    } else {
                        assert(old_placed[i2]);
                        let p0 = choose|p: int| 0 <= p < old_gp.len() && old_gp[p] == i2;
                        assert(gp[p0] == i2);
                    }
                }
                // the new entry is distinct from every earlier one
                assert forall|a: int, b: int|
                    0 <= a < newlen && 0 <= b < newlen && a != b implies ord@[a] != ord@[b] by {
                    if a < newlen - 1 && b < newlen - 1 {
                        assert(old_ord[a] != old_ord[b]);
                    } else {
                        let c = if a == newlen - 1 {
                            b
                        } else {
                            a
                        };
                        if 0 <= c < newlen - 1 {
                            if ord@[c] == idx {
                                assert(self.nodes@[gp[c]].0 == idx);
                                lemma_pos_unique(self, gp[c], pick as int);
                            }
                        }
                    }
                }
                // the freshly placed node's dependencies were all placed
                let pi = self.pos_of(idx);
                assert(self.has_node(idx));
                assert(0 <= pi < n && self.nodes@[pi].0 == idx);
                lemma_pos_unique(self, pi, pick as int);
                assert(ord@[newlen - 1] == idx);
                assert(self.node_at(idx) == self.nodes@[pick as int].1);
                assert forall|k: int|
                    0 <= k < dep_outlets((*self).node_at(idx)).len() implies #[trigger] dep_in(
                        *self,
                        old_ord,
                        idx,
                        k,
                    ) by {
                    let dkx = dep_outlets((*self).node_at(idx))[k];
                    let d0 = dep_outlets(self.nodes@[pick as int].1)[k].0;
                    assert(dkx.0 == d0);
                    assert(self.deps_ok_at(pick as int));
                    assert(self.outlet_ok(dep_outlets(self.nodes@[pick as int].1)[k]));
                    let pd = self.pos_of(d0);
                    assert(0 <= pd < n && self.nodes@[pd].0 == d0);
                    assert(old_placed[pd]);
                    assert(exists|q: int| 0 <= q < old_gp.len() && old_gp[q] == pd);
                    let q2 = choose|q: int| 0 <= q < old_gp.len() && old_gp[q] == pd;
                    assert(old_gp[q2] == pd);
                    assert(old_ord[q2] == self.nodes@[pd].0);
                    assert(old_ord[q2] == dep_outlets((*self).node_at(idx))[k].0);
                }
                lemma_topo_prefix_push(*self, old_ord, idx);
                assert(ord@ == old_ord.push(idx));
            }
        }
        proof {
            assert forall|p: int| 0 <= p < ord@.len() implies self.has_node(ord@[p]) by {
                assert(self.nodes@[gp[p]].0 == ord@[p]);
            }
            if exists|s: Set<usize>| cycle_witness(*self, s) {
                let w = choose|s: Set<usize>| cycle_witness(*self, s);
                lemma_cycle_witness_excludes_order(*self, w, ord@);
            }
        }
        Ok(ord)
    }

    /// Full structural validation: sorted unique indices, every outlet
    /// resolving, resolving declared inputs and outputs, and acyclic
    /// dependencies.
    pub fn validate(&self) -> (r: Result<(), GraphError>)
        ensures
            match r {
                Ok(u) => self.indices_strictly_sorted() && self.all_deps_ok() && self.io_ok()
                    && exists|ord: Seq<usize>| is_topo_order(*self, ord),
                Err(e) => match e {
                    GraphError::ShapeError => !self.indices_strictly_sorted(),
                    GraphError::DanglingOutlet { .. } => !self.all_deps_ok() || !self.io_ok(),
                    GraphError::Cycle => self.indices_strictly_sorted() && self.all_deps_ok()
                        && exists|s: Set<usize>| cycle_witness(*self, s),
                },
            },
    {
        match self.topological_order() {
            Err(e) => Err(e),
            Ok(ord) => {
                match self.check_io() {
                    Err(e) => Err(e),
                    Ok(u) => {
                        proof {
                            assert(is_topo_order(*self, ord@));
                        }
                        Ok(())
                    },
                }
            },
        }
    }
}

/// A graph with a cycle witness admits no topological order: the witness's
/// earliest-placed member would need a witness member placed before it.
pub proof fn lemma_cycle_witness_excludes_order(g: ParsedNodes, s: Set<usize>, ord: Seq<usize>)
    requires
        g.indices_strictly_sorted(),
        cycle_witness(g, s),
    ensures
        !is_topo_order(g, ord),
{
    if is_topo_order(g, ord) {
        let n = g.nodes@.len() as int;
        let iseq = Seq::new(n as nat, |i: int| g.nodes@[i].0);
        assert(iseq.no_duplicates());
        iseq.unique_seq_to_set();
        ord.unique_seq_to_set();
        let x0 = choose|x: usize| s.contains(x);
        assert(g.has_node(x0));
        let i0 = g.pos_of(x0);
        assert(iseq[i0] == x0);
        assert(iseq.to_set().contains(x0));
        if !ord.to_set().contains(x0) {
            assert(ord.to_set() <= iseq.to_set()) by {
                assert forall|y: usize| ord.to_set().contains(y) implies iseq.to_set().contains(
                    y,
                ) by {
                    let q = choose|q: int| 0 <= q < ord.len() && ord[q] == y;
                    assert(g.has_node(y));
                    let iy = g.pos_of(y);
                    assert(iseq[iy] == y);
                }
            }
            ord.to_set().lemma_subset_not_in_lt(iseq.to_set(), x0);
        }
        assert(ord.to_set().contains(x0));
        let p0 = choose|p: int| 0 <= p < ord.len() && ord[p] == x0;
        lemma_no_witness_member_placed(g, s, ord, p0);
        assert(!is_topo_order(g, ord));
    }
}

/// No member of a cycle witness can stand at any place of a topological
/// order.
proof fn lemma_no_witness_member_placed(g: ParsedNodes, s: Set<usize>, ord: Seq<usize>, p: int)
    requires
        cycle_witness(g, s),
        is_topo_order(g, ord),
        0 <= p < ord.len(),
    ensures
        !s.contains(ord[p]),
    decreases p,
{
    if s.contains(ord[p]) {
        let x = ord[p];
        let k = choose|k: int|
            0 <= k < dep_outlets(g.node_at(x)).len() && s.contains(dep_outlets(g.node_at(x))[k].0);
        let d = dep_outlets(g.node_at(x))[k].0;
        assert(dep_before(g, ord, p, k));
        let q = choose|q: int| 0 <= q < p && ord[q] == dep_outlets(g.node_at(ord[p]))[k].0;
        lemma_no_witness_member_placed(g, s, ord, q);
        assert(!s.contains(ord[p]));
    }
}

/// Structural validity of one graph: sorted unique indices, every outlet
/// resolving, resolving declared inputs and outputs, and a topological
/// order.
pub open spec fn graph_structure_ok(g: ParsedNodes) -> bool {
    &&& g.indices_strictly_sorted()
    &&& g.all_deps_ok()
    &&& g.io_ok()
    &&& exists|ord: Seq<usize>| is_topo_order(g, ord)
}

/// A node's nested models, to `depth` levels, are all structurally valid.
pub open spec fn node_nested_ok(nt: NodeType, depth: nat) -> bool
    decreases depth, 0nat, 0nat,
{
    match nt {
        NodeType::Node(_) => true,
        NodeType::SubGraph { model, .. } => depth > 0 && graph_structure_ok(model.graph)
            && nested_prefix_ok(model.graph, model.graph.nodes@.len() as int, (depth - 1) as nat),
    }
}

/// The nested models of the first `i` arena entries are all valid.
pub open spec fn nested_prefix_ok(g: ParsedNodes, i: int, depth: nat) -> bool
    decreases depth, 1nat, i,
{
    if i <= 0 {
        true
    } else {
        nested_prefix_ok(g, i - 1, depth) && node_nested_ok(g.nodes@[i - 1].1, depth)
    }
}

/// A valid prefix validates each of its members.
proof fn lemma_nested_prefix_member(g: ParsedNodes, i: int, j: int, depth: nat)
    requires
        nested_prefix_ok(g, j, depth),
        0 <= i < j,
    ensures
        node_nested_ok(g.nodes@[i].1, depth),
    decreases j,
{
    if i < j - 1 {
        lemma_nested_prefix_member(g, i, j - 1, depth);
    }
}

/// Validates a graph and every model nested in it, following nested models
/// to `depth` levels: succeeds exactly when the graph and all its nested
/// models (which must nest no deeper than `depth`) are structurally valid.
pub fn validate_nested(g: &ParsedNodes, depth: u32) -> (r: Result<(), GraphError>)
    ensures
        r is Ok <==> graph_structure_ok(*g) && nested_prefix_ok(
            *g,
            g.nodes@.len() as int,
            depth as nat,
        ),
    decreases depth, 0nat, 0nat,
{
    match g.validate() {
        Err(e) => {
            proof {
                if (e matches GraphError::Cycle) {
                    let w = choose|s: Set<usize>| cycle_witness(*g, s);
                    assert forall|ord: Seq<usize>| !is_topo_order(*g, ord) by {
                        lemma_cycle_witness_excludes_order(*g, w, ord);
                    }
                }
            }
            return Err(e);
        },
        Ok(u) => {},
    }
    let n = g.nodes.len();
    let mut i: usize = 0;
    while i < n
        invariant
            i <= n,
            n == g.nodes@.len(),
            graph_structure_ok(*g),
            nested_prefix_ok(*g, i as int, depth as nat),
        decreases n - i,
    {
        match &g.nodes[i].1 {
            NodeType::Node(_) => {},
            NodeType::SubGraph { model, .. } => {
                if depth == 0 {
                    proof {
                        assert(!node_nested_ok(g.nodes@[i as int].1, depth as nat));
                        if nested_prefix_ok(*g, g.nodes@.len() as int, depth as nat) {
                            lemma_nested_prefix_member(
                                *g,
                                i as int,
                                g.nodes@.len() as int,
                                depth as nat,
                            );
                        }
                    }
                    return Err(GraphError::ShapeError);
                }
                match validate_nested(&model.graph, depth - 1) {
                    Err(e) => {
                        proof {
                            assert(!node_nested_ok(g.nodes@[i as int].1, depth as nat));
                            if nested_prefix_ok(*g, g.nodes@.len() as int, depth as nat) {
                                lemma_nested_prefix_member(
                                    *g,
                                    i as int,
                                    g.nodes@.len() as int,
                                    depth as nat,
                                );
                            }
                        }
                        return Err(e);
                    },
                    Ok(u) => {},
                }
                proof {
                    assert(node_nested_ok(g.nodes@[i as int].1, depth as nat));
                }
            },
        }
        proof {
            assert(node_nested_ok(g.nodes@[i as int].1, depth as nat));
            assert(nested_prefix_ok(*g, i + 1, depth as nat));
        }
        i = i + 1;
    }
    Ok(())
}

impl Model {
    /// Full structural validation of the model: sorted unique indices, every
    /// outlet resolving, resolving declared inputs and outputs, acyclic
    /// dependencies, and the same for every nested model, to the engine's
    /// nesting depth.
    pub fn validate(&self) -> (r: Result<(), GraphError>)
        ensures
            r is Ok <==> graph_structure_ok(self.graph) && nested_prefix_ok(
                self.graph,
                self.graph.nodes@.len() as int,
                crate::graphsettings::MAX_SUBGRAPH_DEPTH as nat,
            ),
    {
        validate_nested(&self.graph, crate::graphsettings::MAX_SUBGRAPH_DEPTH)
    }
}

/// An empty placement has no placed entry.
proof fn lemma_count_true_zero(s: Seq<bool>)
    requires
        forall|i: int| 0 <= i < s.len() ==> !s[i],
    ensures
        count_true(s) == 0,
    decreases s.len(),
{
    if s.len() > 0 {
        lemma_count_true_zero(s.drop_last());
    }
}

} // verus!

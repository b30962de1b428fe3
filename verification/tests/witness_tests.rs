use core_ezkl::graphwitness::{
    execute, LookupTables, LookupTable, ForwardError, LookupRangeError, subgraph_iterations,
    tensor_binop, BinKind, attach_processed, ModuleForwardResult,
};
use core_ezkl::snark::Felt;
use core_ezkl::graphsettings::{RunArgs, CheckMode, Tolerance, LookupRange};
use core_ezkl::model::{Model, ParsedNodes, NodeType, Node, VarVisibility, Visibility, InputMapping, GraphError};
use core_ezkl::supportedop::{SupportedOp, PolyOp, LookupOp, Rat, Tensor, TensorType};

fn run_args(lookup_min: i128, lookup_max: i128) -> RunArgs {
    RunArgs {
        tolerance: Tolerance { val: Rat { num: 0, den: 1 }, scale: Rat { num: 1, den: 1 } },
        input_scale: 7,
        param_scale: 7,
        scale_rebase_multiplier: 1,
        lookup_range: LookupRange { min: lookup_min, max: lookup_max },
        logrows: 17,
        num_inner_cols: 2,
        variables: vec![],
        input_visibility: Visibility::Private,
        output_visibility: Visibility::Public,
        param_visibility: Visibility::Private,
    }
}

fn vis() -> VarVisibility {
    VarVisibility {
        input: Visibility::Private,
        params: Visibility::Private,
        output: Visibility::Public,
    }
}

fn leaf(inputs: Vec<(usize, usize)>, op: SupportedOp, dims: Vec<usize>) -> NodeType {
    NodeType::Node(Node { inputs, op, out_scale: 7, out_dims: dims })
}

fn input_tensor(values: Vec<i128>) -> Tensor {
    let n = values.len();
    Tensor { inner: values, dims: vec![1, n], scale: Some(7), visibility: None }
}

fn no_tables() -> LookupTables {
    LookupTables { tables: vec![] }
}

/// Two inputs feeding an addition: `Add(in0, in1) -> out` with inputs
/// prequantized at scale 7.
fn add_model() -> Model {
    Model {
        graph: ParsedNodes {
            nodes: vec![
                (0, leaf(vec![], SupportedOp::Input, vec![1, 2])),
                (1, leaf(vec![], SupportedOp::Input, vec![1, 2])),
                (2, leaf(vec![(0, 0), (1, 0)], SupportedOp::Linear(PolyOp::Add), vec![1, 2])),
            ],
            inputs: vec![0, 1],
            outputs: vec![(2, 0)],
        },
        visibility: vis(),
    }
}

#[test]
fn add_graph_produces_the_quantized_sum() {
    // [[1.0, 2.0]] and [[3.0, 4.0]] at scale 7
    let in0 = input_tensor(vec![128, 256]);
    let in1 = input_tensor(vec![384, 512]);
    let w = execute(
        &add_model(),
        &vec![in0, in1],
        &run_args(-32768, 32768),
        CheckMode::SAFE,
        &no_tables(),
    )
    .unwrap();
    // [[4.0, 6.0]] at scale 7
    assert_eq!(w.outputs, vec![vec![512, 768]]);
    assert_eq!(w.inputs, vec![vec![128, 256], vec![384, 512]]);
    // no nonlinear operator ran, so the trackers never moved
    assert_eq!(w.max_lookup_inputs, 0);
    assert_eq!(w.min_lookup_inputs, 0);
}

fn sigmoid_model() -> Model {
    Model {
        graph: ParsedNodes {
            nodes: vec![
                (0, leaf(vec![], SupportedOp::Input, vec![1])),
                (
                    1,
                    leaf(
                        vec![(0, 0)],
                        SupportedOp::Nonlinear(LookupOp::Sigmoid { scale: Rat { num: 128, den: 1 } }),
                        vec![1],
                    ),
                ),
            ],
            inputs: vec![0],
            outputs: vec![(1, 0)],
        },
        visibility: vis(),
    }
}

#[test]
fn sigmoid_input_beyond_the_range_fails_in_safe_mode() {
    let w = execute(
        &sigmoid_model(),
        &vec![input_tensor(vec![5000])],
        &run_args(-4096, 4096),
        CheckMode::SAFE,
        &no_tables(),
    );
    assert_eq!(
        w.unwrap_err(),
        ForwardError::LookupRange(LookupRangeError { value: 5000, min: -4096, max: 4096 })
    );
}

#[test]
fn sigmoid_overflow_is_deferred_in_unsafe_mode() {
    let w = execute(
        &sigmoid_model(),
        &vec![input_tensor(vec![5000])],
        &run_args(-4096, 4096),
        CheckMode::UNSAFE,
        &no_tables(),
    )
    .unwrap();
    // execution succeeds and only the tracker reflects the overflow
    assert_eq!(w.max_lookup_inputs, 5000);
}

#[test]
fn lookup_boundary_values_succeed_in_safe_mode() {
    let w = execute(
        &sigmoid_model(),
        &vec![input_tensor(vec![4096])],
        &run_args(-4096, 4096),
        CheckMode::SAFE,
        &no_tables(),
    )
    .unwrap();
    assert_eq!(w.max_lookup_inputs, 4096);
    let w2 = execute(
        &sigmoid_model(),
        &vec![input_tensor(vec![-4096])],
        &run_args(-4096, 4096),
        CheckMode::SAFE,
        &no_tables(),
    )
    .unwrap();
    assert_eq!(w2.min_lookup_inputs, -4096);
}

#[test]
fn supplied_tables_drive_transcendental_outputs() {
    let sig = LookupOp::Sigmoid { scale: Rat { num: 128, den: 1 } };
    let tables = LookupTables {
        tables: vec![LookupTable { op: sig, start: 0, values: vec![64, 65, 66] }],
    };
    let w = execute(
        &sigmoid_model(),
        &vec![input_tensor(vec![2])],
        &run_args(-4096, 4096),
        CheckMode::SAFE,
        &tables,
    )
    .unwrap();
    assert_eq!(w.outputs, vec![vec![66]]);
}

#[test]
fn relu_is_evaluated_exactly() {
    let m = Model {
        graph: ParsedNodes {
            nodes: vec![
                (0, leaf(vec![], SupportedOp::Input, vec![4])),
                (1, leaf(vec![(0, 0)], SupportedOp::Nonlinear(LookupOp::ReLU), vec![4])),
            ],
            inputs: vec![0],
            outputs: vec![(1, 0)],
        },
        visibility: vis(),
    };
    let w = execute(
        &m,
        &vec![Tensor { inner: vec![-5, 0, 3, -1], dims: vec![4], scale: Some(7), visibility: None }],
        &run_args(-32768, 32768),
        CheckMode::SAFE,
        &no_tables(),
    )
    .unwrap();
    assert_eq!(w.outputs, vec![vec![0, 0, 3, 0]]);
    assert_eq!(w.min_lookup_inputs, -5);
    assert_eq!(w.max_lookup_inputs, 3);
}

#[test]
fn multiplication_rebases_the_scale() {
    // two scale-7 operands multiply to scale 14, which exceeds
    // input_scale * multiplier and is rebased back to 7
    let m = Model {
        graph: ParsedNodes {
            nodes: vec![
                (0, leaf(vec![], SupportedOp::Input, vec![1])),
                (1, leaf(vec![], SupportedOp::Input, vec![1])),
                (2, leaf(vec![(0, 0), (1, 0)], SupportedOp::Linear(PolyOp::Mult), vec![1])),
            ],
            inputs: vec![0, 1],
            outputs: vec![(2, 0)],
        },
        visibility: vis(),
    };
    // 1.0 * 1.5 at scale 7: raw product 128*192 = 24576 at scale 14,
    // rebased to 192 at scale 7
    let w = execute(
        &m,
        &vec![input_tensor(vec![128]), input_tensor(vec![192])],
        &run_args(-32768, 32768),
        CheckMode::SAFE,
        &no_tables(),
    )
    .unwrap();
    assert_eq!(w.outputs, vec![vec![192]]);
}

#[test]
fn elementwise_ops_check_shapes() {
    let a = Tensor { inner: vec![1, 2], dims: vec![2], scale: Some(7), visibility: None };
    let b = Tensor { inner: vec![1, 2, 3], dims: vec![3], scale: Some(7), visibility: None };
    assert_eq!(
        tensor_binop(&a, &b, BinKind::Add, 7).unwrap_err(),
        ForwardError::Graph(GraphError::ShapeError)
    );
}

#[test]
fn reshape_must_preserve_the_element_count() {
    let m = Model {
        graph: ParsedNodes {
            nodes: vec![
                (0, leaf(vec![], SupportedOp::Input, vec![1, 2])),
                (
                    1,
                    leaf(vec![(0, 0)], SupportedOp::Linear(PolyOp::Reshape(vec![3])), vec![3]),
                ),
            ],
            inputs: vec![0],
            outputs: vec![(1, 0)],
        },
        visibility: vis(),
    };
    let r = execute(
        &m,
        &vec![input_tensor(vec![1, 2])],
        &run_args(-32768, 32768),
        CheckMode::SAFE,
        &no_tables(),
    );
    assert_eq!(r.unwrap_err(), ForwardError::Graph(GraphError::ShapeError));
}

#[test]
fn tracker_merge_is_order_insensitive() {
    // tmax is the tracker's merge operator: symmetric and associative
    let a: i128 = -3;
    let b: i128 = 7;
    let c: i128 = 5;
    assert_eq!(a.tmax(&b), b.tmax(&a));
    let ab = a.tmax(&b).unwrap();
    let bc = b.tmax(&c).unwrap();
    assert_eq!(ab.tmax(&c), a.tmax(&bc));
    assert_eq!(<i128 as TensorType>::zero(), Some(0));
    assert_eq!(<i128 as TensorType>::one(), Some(1));
}

#[test]
fn stacked_inputs_must_agree_on_chunk_count() {
    // 8 elements in chunks of 2 vs. 9 elements in chunks of 3: 4 vs. 3
    let mappings = vec![
        InputMapping::Stacked { axis: 0, chunk: 2 },
        InputMapping::Stacked { axis: 0, chunk: 3 },
    ];
    let dims = vec![vec![8], vec![9]];
    assert_eq!(subgraph_iterations(&mappings, &dims).unwrap_err(), GraphError::ShapeError);
}

#[test]
fn stacked_chunk_count_is_the_ceiling() {
    let mappings = vec![
        InputMapping::Full,
        InputMapping::Stacked { axis: 0, chunk: 3 },
    ];
    let dims = vec![vec![4], vec![8]];
    assert_eq!(subgraph_iterations(&mappings, &dims).unwrap(), 3);
}

#[test]
fn no_stacked_input_means_one_iteration() {
    let mappings = vec![InputMapping::Full, InputMapping::State];
    let dims = vec![vec![4], vec![4]];
    assert_eq!(subgraph_iterations(&mappings, &dims).unwrap(), 1);
}

#[test]
fn processed_artifacts_follow_the_visibility() {
    let w = execute(
        &add_model(),
        &vec![input_tensor(vec![128, 256]), input_tensor(vec![384, 512])],
        &run_args(-32768, 32768),
        CheckMode::SAFE,
        &no_tables(),
    )
    .unwrap();
    let hash = ModuleForwardResult {
        poseidon_hash: Some(vec![Felt { lo: 7, hi: 0 }]),
        kzg_commit: None,
    };
    // inputs hashed, params and outputs not committed
    let vv = VarVisibility {
        input: Visibility::Hashed { hash_is_public: true, outlets: vec![0] },
        params: Visibility::Private,
        output: Visibility::Public,
    };
    let w2 = attach_processed(w, &vv, Some(hash.clone()), Some(hash.clone()), Some(hash));
    assert!(w2.processed_inputs.is_some());
    assert!(w2.processed_params.is_none());
    assert!(w2.processed_outputs.is_none());
}

#[test]
fn the_empty_model_executes_to_an_empty_witness() {
    let m = Model {
        graph: ParsedNodes { nodes: vec![], inputs: vec![], outputs: vec![] },
        visibility: vis(),
    };
    let w = execute(&m, &vec![], &run_args(-32768, 32768), CheckMode::SAFE, &no_tables()).unwrap();
    assert!(w.inputs.is_empty());
    assert!(w.outputs.is_empty());
}

use core_ezkl::graphsettings::{
    size, RunArgs, SizingContext, CheckMode, Tolerance, LookupRange, SizeError, CapacityError,
    collect_required_lookups, MAX_SUBGRAPH_DEPTH,
};
use core_ezkl::model::{Model, ParsedNodes, NodeType, Node, VarVisibility, Visibility};
use core_ezkl::supportedop::{SupportedOp, PolyOp, LookupOp, Rat};

fn run_args(logrows: u32) -> RunArgs {
    RunArgs {
        tolerance: Tolerance { val: Rat { num: 0, den: 1 }, scale: Rat { num: 1, den: 1 } },
        input_scale: 7,
        param_scale: 7,
        scale_rebase_multiplier: 1,
        lookup_range: LookupRange { min: -32768, max: 32768 },
        logrows,
        num_inner_cols: 2,
        variables: vec![("batch_size".to_string(), 1)],
        input_visibility: Visibility::Private,
        output_visibility: Visibility::Public,
        param_visibility: Visibility::Private,
    }
}

fn ctx(blinding: usize) -> SizingContext {
    SizingContext {
        num_blinding_factors: blinding,
        version: "test".to_string(),
        timestamp: None,
        check_mode: CheckMode::SAFE,
    }
}

fn leaf(inputs: Vec<(usize, usize)>, op: SupportedOp, dims: Vec<usize>) -> NodeType {
    NodeType::Node(Node { inputs, op, out_scale: 7, out_dims: dims })
}

fn vis() -> VarVisibility {
    VarVisibility {
        input: Visibility::Private,
        params: Visibility::Private,
        output: Visibility::Public,
    }
}

/// One input node with four elements: 4 assignment rows, no constants.
fn four_row_model() -> Model {
    Model {
        graph: ParsedNodes {
            nodes: vec![(0, leaf(vec![], SupportedOp::Input, vec![4]))],
            inputs: vec![0],
            outputs: vec![(0, 0)],
        },
        visibility: vis(),
    }
}

#[test]
fn capacity_boundary_exactly_full_succeeds() {
    // 4 assignments + 0 constants + 4 blinding rows == 2^3 rows
    let s = size(&four_row_model(), run_args(3), ctx(4)).unwrap();
    assert_eq!(s.num_rows, 8);
    assert_eq!(s.total_assignments, 4);
    assert_eq!(s.total_const_size, 0);
    assert_eq!(s.num_blinding_factors, Some(4));
}

#[test]
fn capacity_error_triggers_exactly_above_the_budget() {
    // 4 + 0 + 5 == 9 > 2^3 rows
    let e = size(&four_row_model(), run_args(3), ctx(5)).unwrap_err();
    assert_eq!(
        e,
        SizeError::Capacity(CapacityError { required: 9, available: 8 })
    );
}

#[test]
fn required_lookups_are_deduplicated_and_deterministic() {
    let sig = LookupOp::Sigmoid { scale: Rat { num: 128, den: 1 } };
    let m = Model {
        graph: ParsedNodes {
            nodes: vec![
                (0, leaf(vec![], SupportedOp::Input, vec![1])),
                (1, leaf(vec![(0, 0)], SupportedOp::Nonlinear(sig), vec![1])),
                (2, leaf(vec![(1, 0)], SupportedOp::Nonlinear(sig), vec![1])),
                (3, leaf(vec![(2, 0)], SupportedOp::Nonlinear(LookupOp::ReLU), vec![1])),
            ],
            inputs: vec![0],
            outputs: vec![(3, 0)],
        },
        visibility: vis(),
    };
    let l1 = collect_required_lookups(&m, MAX_SUBGRAPH_DEPTH);
    let l2 = collect_required_lookups(&m, MAX_SUBGRAPH_DEPTH);
    assert_eq!(l1, vec![sig, LookupOp::ReLU]);
    // the set is a function of the model alone: two runs agree exactly
    assert_eq!(l1, l2);
    let s = size(&m, run_args(17), ctx(4)).unwrap();
    assert_eq!(s.required_lookups, vec![sig, LookupOp::ReLU]);
}

#[test]
fn lookup_tables_consume_rows() {
    let m = Model {
        graph: ParsedNodes {
            nodes: vec![
                (0, leaf(vec![], SupportedOp::Input, vec![1])),
                (1, leaf(vec![(0, 0)], SupportedOp::Nonlinear(LookupOp::ReLU), vec![1])),
            ],
            inputs: vec![0],
            outputs: vec![(1, 0)],
        },
        visibility: vis(),
    };
    let s = size(&m, run_args(17), ctx(4)).unwrap();
    // two gate rows plus the table: 65537 entries over 2 columns
    assert_eq!(s.total_assignments, 2 + (65537 + 1) / 2);
}

#[test]
fn unknown_operators_are_refused_by_name() {
    let m = Model {
        graph: ParsedNodes {
            nodes: vec![(0, leaf(vec![], SupportedOp::Unknown("Gelu".to_string()), vec![1]))],
            inputs: vec![],
            outputs: vec![],
        },
        visibility: vis(),
    };
    match size(&m, run_args(17), ctx(4)).unwrap_err() {
        SizeError::Unsupported(u) => assert_eq!(u.name, "Gelu"),
        other => panic!("unexpected error {:?}", other),
    }
}

use core_ezkl::model::{
    Model, ParsedNodes, NodeType, Node, VarVisibility, Visibility, GraphError, ConfigError,
    VarCategory, num_outputs, input_outlets,
};
use core_ezkl::supportedop::SupportedOp;

fn leaf(inputs: Vec<(usize, usize)>, op: SupportedOp) -> NodeType {
    NodeType::Node(Node { inputs, op, out_scale: 7, out_dims: vec![2] })
}

fn private_vis() -> VarVisibility {
    VarVisibility {
        input: Visibility::Private,
        params: Visibility::Private,
        output: Visibility::Public,
    }
}

#[test]
fn topological_order_respects_dependencies() {
    let g = ParsedNodes {
        nodes: vec![
            (0, leaf(vec![], SupportedOp::Input)),
            (1, leaf(vec![], SupportedOp::Input)),
            (2, leaf(vec![(0, 0), (1, 0)], SupportedOp::Linear(core_ezkl::supportedop::PolyOp::Add))),
        ],
        inputs: vec![0, 1],
        outputs: vec![(2, 0)],
    };
    let ord = g.topological_order().unwrap();
    assert_eq!(ord.len(), 3);
    let pos = |idx: usize| ord.iter().position(|&x| x == idx).unwrap();
    assert!(pos(0) < pos(2));
    assert!(pos(1) < pos(2));
}

#[test]
fn cycle_is_detected() {
    // two nodes reading from each other
    let g = ParsedNodes {
        nodes: vec![
            (0, leaf(vec![(1, 0)], SupportedOp::Linear(core_ezkl::supportedop::PolyOp::Identity))),
            (1, leaf(vec![(0, 0)], SupportedOp::Linear(core_ezkl::supportedop::PolyOp::Identity))),
        ],
        inputs: vec![],
        outputs: vec![],
    };
    assert_eq!(g.topological_order().unwrap_err(), GraphError::Cycle);
}

#[test]
fn dangling_outlet_is_reported() {
    let g = ParsedNodes {
        nodes: vec![
            (0, leaf(vec![(7, 0)], SupportedOp::Linear(core_ezkl::supportedop::PolyOp::Identity))),
        ],
        inputs: vec![],
        outputs: vec![],
    };
    assert_eq!(
        g.topological_order().unwrap_err(),
        GraphError::DanglingOutlet { node: 7, slot: 0 }
    );
}

#[test]
fn out_of_range_slot_is_dangling() {
    let g = ParsedNodes {
        nodes: vec![
            (0, leaf(vec![], SupportedOp::Input)),
            (1, leaf(vec![(0, 3)], SupportedOp::Linear(core_ezkl::supportedop::PolyOp::Identity))),
        ],
        inputs: vec![0],
        outputs: vec![],
    };
    assert_eq!(
        g.topological_order().unwrap_err(),
        GraphError::DanglingOutlet { node: 0, slot: 3 }
    );
}

#[test]
fn unsorted_indices_are_refused() {
    let g = ParsedNodes {
        nodes: vec![
            (1, leaf(vec![], SupportedOp::Input)),
            (0, leaf(vec![], SupportedOp::Input)),
        ],
        inputs: vec![],
        outputs: vec![],
    };
    assert_eq!(g.topological_order().unwrap_err(), GraphError::ShapeError);
}

#[test]
fn validate_accepts_a_well_formed_model() {
    let m = Model {
        graph: ParsedNodes {
            nodes: vec![
                (0, leaf(vec![], SupportedOp::Input)),
                (2, leaf(vec![(0, 0)], SupportedOp::Linear(core_ezkl::supportedop::PolyOp::Identity))),
            ],
            inputs: vec![0],
            outputs: vec![(2, 0)],
        },
        visibility: private_vis(),
    };
    assert!(m.validate().is_ok());
}

#[test]
fn validation_reaches_nested_models() {
    // a nested model whose inner graph has a dangling outlet
    let bad_inner = Model {
        graph: ParsedNodes {
            nodes: vec![(0, leaf(vec![(9, 0)], SupportedOp::Linear(core_ezkl::supportedop::PolyOp::Identity)))],
            inputs: vec![],
            outputs: vec![],
        },
        visibility: private_vis(),
    };
    let outer = Model {
        graph: ParsedNodes {
            nodes: vec![
                (0, leaf(vec![], SupportedOp::Input)),
                (
                    1,
                    NodeType::SubGraph {
                        model: Box::new(bad_inner),
                        inputs: vec![(0, 0)],
                        idx: 1,
                        output_mappings: vec![],
                        input_mappings: vec![core_ezkl::model::InputMapping::Full],
                        out_dims: vec![vec![2]],
                        out_scales: vec![7],
                    },
                ),
            ],
            inputs: vec![0],
            outputs: vec![(1, 0)],
        },
        visibility: private_vis(),
    };
    assert!(outer.validate().is_err());
}

#[test]
fn hashed_visibility_needs_outlets() {
    assert_eq!(
        Visibility::new_hashed(true, vec![]).unwrap_err(),
        ConfigError::EmptyHashedOutlets
    );
    let v = Visibility::new_hashed(false, vec![0]).unwrap();
    assert!(matches!(v, Visibility::Hashed { .. }));
}

#[test]
fn visibility_policy_is_a_pure_lookup() {
    let vv = private_vis();
    assert_eq!(*vv.get(VarCategory::Input), Visibility::Private);
    assert_eq!(*vv.get(VarCategory::Params), Visibility::Private);
    assert_eq!(*vv.get(VarCategory::Output), Visibility::Public);
}

#[test]
fn node_shape_helpers() {
    let n = leaf(vec![(0, 0)], SupportedOp::Linear(core_ezkl::supportedop::PolyOp::Identity));
    assert_eq!(num_outputs(&n), 1);
    assert_eq!(input_outlets(&n).len(), 1);
}

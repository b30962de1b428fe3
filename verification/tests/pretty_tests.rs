use core_ezkl::graphwitness::{
    fixed_point_to_decimal, i128_to_decimal, u128_to_decimal, felt_to_hex, render_pretty,
    GraphWitness,
};
use core_ezkl::snark::Felt;

#[test]
fn decimal_rendering_of_integers() {
    assert_eq!(u128_to_decimal(0), "0");
    assert_eq!(u128_to_decimal(1234567890), "1234567890");
    assert_eq!(i128_to_decimal(-42), "-42");
}

#[test]
fn fixed_point_rendering_is_exact() {
    // 128 / 2^7 == 1.0000000
    assert_eq!(fixed_point_to_decimal(128, 7), "1.0000000");
    // 96 / 2^7 == 0.75
    assert_eq!(fixed_point_to_decimal(96, 7), "0.7500000");
    // -5 / 2^1 == -2.5
    assert_eq!(fixed_point_to_decimal(-5, 1), "-2.5");
    // scale 0 renders plain integers
    assert_eq!(fixed_point_to_decimal(-7, 0), "-7");
}

#[test]
fn hex_rendering_is_fixed_width() {
    let f = Felt { lo: 0xdeadbeef, hi: 0 };
    let s = felt_to_hex(&f);
    assert_eq!(s.len(), 2 + 64);
    assert_eq!(
        s,
        "0x00000000000000000000000000000000000000000000000000000000deadbeef"
    );
}

#[test]
fn pretty_step_renders_witness_values() {
    let w = GraphWitness {
        inputs: vec![vec![128, 256]],
        pretty_elements: None,
        outputs: vec![vec![512, 768]],
        processed_inputs: None,
        processed_params: None,
        processed_outputs: None,
        max_lookup_inputs: 0,
        min_lookup_inputs: 0,
    };
    let pe = render_pretty(&w, 7, 7).unwrap();
    assert_eq!(pe.rescaled_inputs, vec![vec!["1.0000000".to_string(), "2.0000000".to_string()]]);
    assert_eq!(pe.rescaled_outputs, vec![vec!["4.0000000".to_string(), "6.0000000".to_string()]]);
}

#[test]
fn pretty_step_refuses_the_one_unrenderable_value() {
    let w = GraphWitness {
        inputs: vec![vec![i128::MIN]],
        pretty_elements: None,
        outputs: vec![],
        processed_inputs: None,
        processed_params: None,
        processed_outputs: None,
        max_lookup_inputs: 0,
        min_lookup_inputs: 0,
    };
    assert!(render_pretty(&w, 7, 7).is_err());
}

#[test]
fn negative_scales_render_as_scaled_integers() {
    // 3 at scale -2 stands for 12
    assert_eq!(fixed_point_to_decimal(3, -2), "12");
    assert_eq!(fixed_point_to_decimal(-3, -2), "-12");
}

use core_ezkl::scale::{quantize, rescale, div_rhe, should_rebase, pow2_i128};

#[test]
fn quantize_rounds_half_to_even_down_at_half() {
    // 0.5 rounds to the even neighbour 0
    assert_eq!(quantize(1, 2, 0), 0);
}

#[test]
fn quantize_rounds_half_to_even_up_at_three_halves() {
    // 1.5 rounds to the even neighbour 2
    assert_eq!(quantize(3, 2, 0), 2);
}

#[test]
fn quantize_rounds_half_to_even_down_at_five_halves() {
    // 2.5 rounds to the even neighbour 2
    assert_eq!(quantize(5, 2, 0), 2);
}

#[test]
fn quantize_negative_ties_round_to_even() {
    // -0.5 rounds to 0, -1.5 rounds to -2
    assert_eq!(quantize(-1, 2, 0), 0);
    assert_eq!(quantize(-3, 2, 0), -2);
}

#[test]
fn quantize_at_scale_seven() {
    // 1.0 at scale 7 is 128
    assert_eq!(quantize(1, 1, 7), 128);
    // 0.75 at scale 7 is 96
    assert_eq!(quantize(3, 4, 7), 96);
}

#[test]
fn rescale_up_then_down_returns_the_value() {
    assert_eq!(rescale(rescale(5, 3, 7), 7, 3), 5);
    assert_eq!(rescale(rescale(-11, 0, 10), 10, 0), -11);
}

#[test]
fn rescale_down_rounds_half_to_even() {
    // 3 at scale 1 is 1.5: down to scale 0 it rounds to 2
    assert_eq!(rescale(3, 1, 0), 2);
    // 1 at scale 1 is 0.5: down to scale 0 it rounds to 0
    assert_eq!(rescale(1, 1, 0), 0);
}

#[test]
fn div_rhe_plain_division() {
    assert_eq!(div_rhe(7, 2), 4);
    assert_eq!(div_rhe(-7, 2), -4);
    assert_eq!(div_rhe(9, 3), 3);
}

#[test]
fn rebase_threshold_is_strict() {
    // scale 7 with input scale 7 and multiplier 1: no rebase at the bound
    assert!(!should_rebase(7, 7, 1));
    assert!(should_rebase(8, 7, 1));
    assert!(!should_rebase(14, 7, 2));
}

#[test]
fn pow2_values() {
    assert_eq!(pow2_i128(0), 1);
    assert_eq!(pow2_i128(7), 128);
    assert_eq!(pow2_i128(31), 0x80000000);
}

#[test]
fn quantize_handles_negative_scales() {
    // 8 at scale -2 stands for 8/4
    assert_eq!(quantize(8, 1, -2), 2);
    assert_eq!(quantize(10, 1, -2), 2);
}

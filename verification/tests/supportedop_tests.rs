use core_ezkl::supportedop::{
    classify, lookup_domain, SupportedOp, PolyOp, LookupOp, OpClass, Rat,
    DomainError, Tensor,
};

#[test]
fn classify_assigns_each_operator_once() {
    assert!(matches!(
        classify(SupportedOp::Linear(PolyOp::Add)),
        Ok(OpClass::Poly(PolyOp::Add))
    ));
    assert!(matches!(
        classify(SupportedOp::Nonlinear(LookupOp::ReLU)),
        Ok(OpClass::Lookup(LookupOp::ReLU))
    ));
    assert!(matches!(classify(SupportedOp::Input), Ok(OpClass::Poly(PolyOp::Identity))));
}

#[test]
fn classify_names_the_unsupported_operator() {
    let err = classify(SupportedOp::Unknown("LayerNorm".to_string())).unwrap_err();
    assert_eq!(err.name, "LayerNorm");
}

#[test]
fn sigmoid_covers_the_full_declared_range() {
    let d = lookup_domain(
        &LookupOp::Sigmoid { scale: Rat { num: 128, den: 1 } },
        7,
        (-32768, 32768),
    )
    .unwrap();
    assert_eq!(d, (-32768, 32768));
}

#[test]
fn sqrt_domain_starts_at_zero() {
    let d = lookup_domain(
        &LookupOp::Sqrt { scale: Rat { num: 128, den: 1 } },
        7,
        (-100, 100),
    )
    .unwrap();
    assert_eq!(d, (0, 100));
}

#[test]
fn div_by_vanishing_quantized_denominator_fails() {
    // denominator 1/1000000 quantizes to 0 at scale 0
    let e = lookup_domain(
        &LookupOp::Div { denom: Rat { num: 1, den: 1000000 } },
        0,
        (-10, 10),
    )
    .unwrap_err();
    assert_eq!(e, DomainError::QuantizedDenominatorZero);
}

#[test]
fn empty_range_is_a_domain_error() {
    let e = lookup_domain(&LookupOp::ReLU, 7, (5, -5)).unwrap_err();
    assert_eq!(e, DomainError::EmptyDomain);
}

#[test]
fn tensor_length_matches_inner() {
    let t = Tensor { inner: vec![1, 2, 3], dims: vec![3], scale: Some(7), visibility: None };
    assert_eq!(t.len(), 3);
}

use core_ezkl::runargs::{parse_key_val, parse_tuple, ParseError};

#[test]
fn key_value_pairs_split_at_the_equals_sign() {
    let (k, v) = parse_key_val("batch_size=1").unwrap();
    assert_eq!(k, "batch_size");
    assert_eq!(v, 1);
}

#[test]
fn key_value_needs_a_separator() {
    assert_eq!(parse_key_val("batch_size").unwrap_err(), ParseError::MissingSeparator);
}

#[test]
fn key_value_refuses_bad_numbers() {
    assert_eq!(parse_key_val("k=abc").unwrap_err(), ParseError::InvalidNumber);
    assert_eq!(parse_key_val("k=").unwrap_err(), ParseError::InvalidNumber);
}

#[test]
fn tuples_parse_with_parens_and_spaces() {
    assert_eq!(parse_tuple("(-32768,32768)").unwrap(), (-32768, 32768));
    assert_eq!(parse_tuple("( -4 , 4 )").unwrap(), (-4, 4));
    assert_eq!(parse_tuple("0,9").unwrap(), (0, 9));
}

#[test]
fn tuples_need_exactly_two_fields() {
    assert_eq!(parse_tuple("(1,2,3)").unwrap_err(), ParseError::InvalidTuple);
    assert_eq!(parse_tuple("(1)").unwrap_err(), ParseError::InvalidTuple);
}

#[test]
fn tuple_fields_must_be_numbers() {
    assert_eq!(parse_tuple("(a,2)").unwrap_err(), ParseError::InvalidNumber);
}

#[test]
fn tuples_trim_tabs_as_well_as_spaces() {
    assert_eq!(parse_tuple("(\t-4 ,\t4\t)").unwrap(), (-4, 4));
}

#[test]
fn tuple_fields_cover_the_whole_signed_range() {
    let txt = format!("({},{})", i128::MIN, i128::MAX);
    assert_eq!(parse_tuple(&txt).unwrap(), (i128::MIN, i128::MAX));
    // one beyond either end is refused
    let too_small = "(-170141183460469231731687303715884105729,0)";
    assert_eq!(parse_tuple(too_small).unwrap_err(), ParseError::InvalidNumber);
    let too_big = "(0,170141183460469231731687303715884105728)";
    assert_eq!(parse_tuple(too_big).unwrap_err(), ParseError::InvalidNumber);
}

#[test]
fn numbers_accept_a_leading_plus() {
    assert_eq!(parse_key_val("k=+5").unwrap(), ("k".to_string(), 5));
    assert_eq!(parse_tuple("(+1,+2)").unwrap(), (1, 2));
    // a bare sign is no number
    assert_eq!(parse_key_val("k=+").unwrap_err(), ParseError::InvalidNumber);
    assert_eq!(parse_tuple("(+,2)").unwrap_err(), ParseError::InvalidNumber);
}

#[test]
fn keys_may_hold_any_text() {
    let (k, v) = parse_key_val("größe=3").unwrap();
    assert_eq!(k, "größe");
    assert_eq!(v, 3);
}

#[test]
fn tuples_trim_any_whitespace() {
    assert_eq!(parse_tuple("(\n-4 ,\r\n4\n)").unwrap(), (-4, 4));
}

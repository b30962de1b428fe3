use core_ezkl::snark::{Snark, Felt, TranscriptType, DeserializeError};

fn sample() -> Snark {
    Snark {
        protocol: String::new(),
        instances: vec![
            vec![Felt { lo: 1, hi: 0 }, Felt { lo: 0xdeadbeef, hi: 42 }],
            vec![Felt { lo: u128::MAX, hi: u128::MAX }],
        ],
        proof: vec![9, 8, 7, 6, 5],
        transcript_type: TranscriptType::EVM,
        split: None,
    }
}

#[test]
fn serialize_then_load_round_trips() {
    let s = sample();
    let bytes = s.serialize();
    let back = Snark::load(&bytes).unwrap();
    assert_eq!(back.instances, s.instances);
    assert_eq!(back.proof, s.proof);
    assert_eq!(back.transcript_type, TranscriptType::EVM);
    assert!(back.split.is_none());
}

#[test]
fn empty_snark_round_trips() {
    let s = Snark {
        protocol: String::new(),
        instances: vec![],
        proof: vec![],
        transcript_type: TranscriptType::EVM,
        split: None,
    };
    let bytes = s.serialize();
    let back = Snark::load(&bytes).unwrap();
    assert_eq!(back.instances, s.instances);
    assert_eq!(back.proof, s.proof);
}

#[test]
fn truncated_bytes_are_malformed() {
    let s = sample();
    let mut bytes = s.serialize();
    bytes.pop();
    assert_eq!(Snark::load(&bytes).unwrap_err(), DeserializeError::MalformedData);
}

#[test]
fn trailing_garbage_is_malformed() {
    let s = sample();
    let mut bytes = s.serialize();
    bytes.push(0);
    assert_eq!(Snark::load(&bytes).unwrap_err(), DeserializeError::MalformedData);
}

#[test]
fn empty_input_is_malformed() {
    assert_eq!(Snark::load(&[]).unwrap_err(), DeserializeError::MalformedData);
}

#[test]
fn format_instances_preserves_the_columns() {
    let s = sample();
    let grouped = s.format_instances();
    assert_eq!(grouped, s.instances);
}

use incrementer::field::Felt;
use incrementer::inputs::{PublicInputs, PUBLIC_INPUT_BYTES};

#[test]
fn from_raw_embeds_the_values_unchanged() {
    let inputs = PublicInputs::from_raw(3, 200);
    assert_eq!(inputs.start.as_int(), 3);
    assert_eq!(inputs.result.as_int(), 200);
    let edge = PublicInputs::from_raw(0, 255);
    assert_eq!(edge.start.as_int(), 0);
    assert_eq!(edge.result.as_int(), 255);
}

#[test]
fn encoding_is_start_then_result() {
    let inputs = PublicInputs::from_raw(3, 200);
    let mut expected = vec![0u8; 32];
    expected[0] = 3;
    expected[16] = 200;
    assert_eq!(inputs.to_bytes(), expected);
}

#[test]
fn encoding_has_fixed_width() {
    assert_eq!(PUBLIC_INPUT_BYTES, 32);
    assert_eq!(PublicInputs::from_raw(0, 0).to_bytes().len(), 32);
    let wide = PublicInputs {
        start: Felt::new(190393255176150493381245531460827183000),
        result: Felt::new(1),
    };
    assert_eq!(wide.to_bytes().len(), 32);
}

#[test]
fn encoding_of_wide_elements() {
    let inputs = PublicInputs {
        start: Felt::new(190393255176150493381245531460827183000),
        result: Felt::new(0x0102030405060708090a0b0c0d0e0f10),
    };
    let expected: Vec<u8> = vec![
        152, 119, 189, 127, 169, 230, 45, 204, 119, 18, 13, 5, 58, 104, 60, 143, 16, 15, 14, 13,
        12, 11, 10, 9, 8, 7, 6, 5, 4, 3, 2, 1,
    ];
    assert_eq!(inputs.to_bytes(), expected);
}

#[test]
fn swapped_inputs_encode_differently() {
    let one = PublicInputs::from_raw(1, 2).to_bytes();
    let other = PublicInputs::from_raw(2, 1).to_bytes();
    assert_ne!(one, other);
}

#[test]
fn write_into_appends_and_keeps_what_was_there() {
    let mut target = vec![9u8, 8, 7];
    PublicInputs::from_raw(5, 6).write_into(&mut target);
    assert_eq!(target.len(), 3 + 32);
    assert_eq!(&target[..3], &[9u8, 8, 7]);
    assert_eq!(&target[3..], &PublicInputs::from_raw(5, 6).to_bytes()[..]);
}

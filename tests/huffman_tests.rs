use tiny_img::jpg::common::Bits;
use tiny_img::jpg::huffman::{encode_ac, encode_dc, lookup, HuffmanSpec, LUMINANCE_DC_COUNT, LUMINANCE_DC_VALUES};
use tiny_img::jpg::jpeg::Mode;
use tiny_img::jpg::rle::{encode, EncodeError};

#[test]
fn huffman_test_encode_dc() {
    assert_eq!(
        encode_dc(2).unwrap(),
        Bits { length: 5, bits: 0b01110000000000000000000000000000 }
    );
}

#[test]
fn huffman_test_encode_ac() {
    assert_eq!(
        encode_ac(0, 16).unwrap(),
        Bits { length: 10, bits: 0b11010100000000000000000000000000 }
    );
}

#[test]
fn huffman_test_encode_sequence() {
    let test_sequence = [2, 16, -21, 10, -15, 0, 0, 0, 3, -2, 0];
    encode(&test_sequence, &mut Bits::new(0, 0), 0, Mode::Luminance).unwrap();
}

#[test]
fn canonical_codes_of_luminance_dc() {
    // Categories 0..5 share the 2- and 3-bit codes, 6 and up get one longer code each.
    assert_eq!(lookup(&LUMINANCE_DC_COUNT, &LUMINANCE_DC_VALUES, 0), Some(Bits::new(2, 0b00)));
    assert_eq!(lookup(&LUMINANCE_DC_COUNT, &LUMINANCE_DC_VALUES, 1), Some(Bits::new(3, 0b010)));
    assert_eq!(lookup(&LUMINANCE_DC_COUNT, &LUMINANCE_DC_VALUES, 5), Some(Bits::new(3, 0b110)));
    assert_eq!(lookup(&LUMINANCE_DC_COUNT, &LUMINANCE_DC_VALUES, 6), Some(Bits::new(4, 0b1110)));
    assert_eq!(
        lookup(&LUMINANCE_DC_COUNT, &LUMINANCE_DC_VALUES, 11),
        Some(Bits::new(9, 0b111111110))
    );
    assert_eq!(lookup(&LUMINANCE_DC_COUNT, &LUMINANCE_DC_VALUES, 12), None);
}

#[test]
fn huffman_spec_lookup() {
    let spec = HuffmanSpec {
        count: [0, 2, 1, 0, 0, 0, 0, 0, 0, 0, 0, 0, 0, 0, 0, 0],
        value: vec![7, 3, 9],
    };
    assert_eq!(spec.get(7), Some(Bits::new(2, 0b00)));
    assert_eq!(spec.get(3), Some(Bits::new(2, 0b01)));
    assert_eq!(spec.get(9), Some(Bits::new(3, 0b100)));
    assert_eq!(spec.get(1), None);
}

#[test]
fn escape_and_end_of_block_codes() {
    // (15, 0) is the 11-bit code 11111111001 and (0, 0) the 4-bit code 1010.
    assert_eq!(encode_ac(15, 0).unwrap(), Bits::new(11, 0b11111111001));
    assert_eq!(encode_ac(0, 0).unwrap(), Bits::new(4, 0b1010));
}

#[test]
fn negative_amplitudes() {
    // -2 has category 2 and amplitude bits 01; the DC code of category 2 is 011.
    assert_eq!(encode_dc(-2).unwrap(), Bits::new(5, 0b01101));
    // -1: category 1, amplitude 0, code 010.
    assert_eq!(encode_dc(-1).unwrap(), Bits::new(4, 0b0100));
}

#[test]
fn unsupported_coefficients() {
    assert_eq!(encode_dc(2048), Err(EncodeError::UnsupportedCoefficient));
    assert_eq!(encode_dc(-2048), Err(EncodeError::UnsupportedCoefficient));
    assert_eq!(encode_ac(0, 1024), Err(EncodeError::UnsupportedCoefficient));
    assert_eq!(encode_ac(0, i32::MIN), Err(EncodeError::UnsupportedCoefficient));
    assert!(encode_dc(2047).is_ok());
    assert!(encode_ac(0, 1023).is_ok());
}

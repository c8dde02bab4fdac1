use tiny_img::jpg::common::Bits;
use tiny_img::jpg::jpeg::Mode;
use tiny_img::jpg::rle::{encode, encode_ac, encode_dc, EncodeError};

#[test]
fn rle_test_encode_dc() {
    assert_eq!(
        encode_dc(2, Mode::Luminance).unwrap(),
        Bits { length: 5, bits: 0b01110000000000000000000000000000 }
    );
}

#[test]
fn rle_test_encode_ac() {
    assert_eq!(
        encode_ac(0, 16, Mode::Luminance).unwrap(),
        Bits { length: 10, bits: 0b11010100000000000000000000000000 }
    );
}

#[test]
fn rle_test_encode_sequence() {
    let test_sequence = [2, 16, -21, 10, -15, 0, 0, 0, 3, -2, 0];
    encode(&test_sequence, &mut Bits::new(0, 0), 0, Mode::Luminance).unwrap();
}

/// Turns bytes and pending bits into a string of '0' and '1'.
fn bit_string(bytes: &[u8], rest: &Bits) -> String {
    let mut s = String::new();
    for b in bytes {
        s += &format!("{:08b}", b);
    }
    for i in 0..rest.length {
        s += if (rest.bits >> (31 - i)) & 1 == 1 { "1" } else { "0" };
    }
    s
}

#[test]
fn example_sequence_bits() {
    // DC 2 | (0,16) | (0,-21) | (0,10) | (0,-15) | (3,3) | (0,-2) | end of block
    let seq = [2, 16, -21, 10, -15, 0, 0, 0, 3, -2, 0];
    let mut bits = Bits::new(0, 0);
    let bytes = encode(&seq, &mut bits, 0, Mode::Luminance).unwrap();
    assert!(!bytes.is_empty());
    assert!(bits.length < 8);
    assert_eq!(
        bit_string(&bytes, &bits),
        "011101101010000110100101010111010101100001111101111101011010"
    );
    assert_eq!(bytes, vec![0x76, 0xa1, 0xa5, 0x5d, 0x58, 0x7d, 0xf5]);
    assert_eq!(bits, Bits::new(4, 0b1010));
    let mut again = Bits::new(0, 0);
    assert_eq!(encode(&seq, &mut again, 0, Mode::Luminance).unwrap(), bytes);
    assert_eq!(again, bits);
}

#[test]
fn sixteen_zeros_give_one_escape() {
    let mut seq = vec![0; 18];
    seq[17] = 1;
    let mut bits = Bits::new(0, 0);
    let bytes = encode(&seq, &mut bits, 0, Mode::Luminance).unwrap();
    // DC 0 (00), escape (15,0) 11111111001, then (0,1): code 00 and amplitude 1; no end of block.
    assert_eq!(bit_string(&bytes, &bits), "0011111111001001");
}

#[test]
fn thirty_two_zeros_give_two_escapes() {
    let mut seq = vec![0; 35];
    seq[34] = -1;
    let mut bits = Bits::new(0, 0);
    let bytes = encode(&seq, &mut bits, 0, Mode::Luminance).unwrap();
    // DC 0, two escapes, then (1,-1): code 1100 and amplitude 0.
    assert_eq!(bit_string(&bytes, &bits), "00111111110011111111100111000");
}

#[test]
fn trailing_zeros_end_the_block() {
    let mut bits = Bits::new(0, 0);
    let bytes = encode(&[0, 0, 0], &mut bits, 0, Mode::Luminance).unwrap();
    assert_eq!(bit_string(&bytes, &bits), "001010");
    let mut bits = Bits::new(0, 0);
    let bytes = encode(&[0, 5], &mut bits, 0, Mode::Luminance).unwrap();
    assert_eq!(bit_string(&bytes, &bits), "00100101");
}

#[test]
fn dc_difference_uses_previous_value() {
    let mut bits = Bits::new(0, 0);
    let bytes = encode(&[7], &mut bits, 5, Mode::Luminance).unwrap();
    // Difference 2: code 011, amplitude 10.
    assert_eq!(bit_string(&bytes, &bits), "01110");
}

#[test]
fn chrominance_tables() {
    // Chrominance DC category 2 is the 2-bit code 10.
    assert_eq!(encode_dc(2, Mode::Chromiance).unwrap(), Bits::new(4, 0b1010));
    // Chrominance AC (0,1) is 01.
    assert_eq!(encode_ac(0, 1, Mode::Chromiance).unwrap(), Bits::new(3, 0b011));
}

#[test]
fn block_with_unsupported_coefficient() {
    let mut bits = Bits::new(0, 0);
    assert_eq!(
        encode(&[0, 5000], &mut bits, 0, Mode::Luminance),
        Err(EncodeError::UnsupportedCoefficient)
    );
    let mut bits = Bits::new(0, 0);
    assert_eq!(
        encode(&[i32::MAX], &mut bits, -1, Mode::Luminance),
        Err(EncodeError::UnsupportedCoefficient)
    );
}

use tiny_img::netpbm::pam::{TupleType, PAM};
use tiny_img::netpbm::pbm::PBM;
use tiny_img::netpbm::pgm::PGM;
use tiny_img::netpbm::ppm::PPM;
use tiny_img::netpbm::utils::{byte_to_char, u8_to_bits};
use tiny_img::netpbm::Mode;
use tiny_img::Serializable;

const J: [[u8; 6]; 10] = [
    [0, 0, 0, 0, 1, 0],
    [0, 0, 0, 0, 1, 0],
    [0, 0, 0, 0, 1, 0],
    [0, 0, 0, 0, 1, 0],
    [0, 0, 0, 0, 1, 0],
    [0, 0, 0, 0, 1, 0],
    [1, 0, 0, 0, 1, 0],
    [0, 1, 1, 1, 0, 0],
    [0, 0, 0, 0, 0, 0],
    [0, 0, 0, 0, 0, 0],
];

const FEEP: [[u8; 24]; 6] = [
    [0, 3, 3, 3, 3, 0, 0, 7, 7, 7, 7, 0, 0, 11, 11, 11, 11, 0, 0, 15, 15, 15, 15, 0],
    [0, 3, 0, 0, 0, 0, 0, 7, 0, 0, 0, 0, 0, 11, 0, 0, 0, 0, 0, 15, 0, 0, 15, 0],
    [0, 3, 3, 3, 0, 0, 0, 7, 7, 7, 0, 0, 0, 11, 11, 11, 0, 0, 0, 15, 15, 15, 15, 0],
    [0, 3, 0, 0, 0, 0, 0, 7, 0, 0, 0, 0, 0, 11, 0, 0, 0, 0, 0, 15, 0, 0, 0, 0],
    [0, 3, 0, 0, 0, 0, 0, 7, 7, 7, 7, 0, 0, 11, 11, 11, 11, 0, 0, 15, 0, 0, 0, 0],
    [0, 0, 0, 0, 0, 0, 0, 0, 0, 0, 0, 0, 0, 0, 0, 0, 0, 0, 0, 0, 0, 0, 0, 0],
];

const COLOURS: [[[u8; 3]; 3]; 2] = [
    [[255, 0, 0], [0, 0, 255], [0, 0, 255]],
    [[255, 255, 0], [255, 255, 255], [0, 0, 0]],
];

#[test]
fn mod_test_save_pbm() {
    let data: Vec<u8> = J.iter().flatten().cloned().collect();
    let bytes = PBM::new(6, 10, Mode::Binary, &data).get_bytes();
    let mut expected = b"P4\n6 10\n".to_vec();
    expected.extend([0x08, 0x08, 0x08, 0x08, 0x08, 0x08, 0x88, 0x70, 0x00, 0x00]);
    assert_eq!(bytes, expected);
}

#[test]
fn mod_test_save_pgm() {
    let data: Vec<u8> = FEEP.iter().flatten().cloned().collect();
    let bytes = PGM::new(Mode::Binary, 24, 6, 15, &data).get_bytes();
    assert!(bytes.starts_with(b"P5\n24 6\n15\n"));
    // Values 0..=15 spread over the byte range: 3 becomes 48.
    assert_eq!(bytes[b"P5\n24 6\n15\n".len() + 1], 48);
    assert_eq!(bytes.len(), b"P5\n24 6\n15\n".len() + 144);
}

#[test]
fn mod_test_save_ppm() {
    let data: Vec<u8> = COLOURS.iter().flatten().flatten().cloned().collect();
    let bytes = PPM::new(Mode::Ascii, 3, 2, 255, &data).get_bytes();
    assert_eq!(
        bytes,
        b"P3\n3 2\n255\n255 0 0 0 0 255 0 0 255 255 255 0 255 255 255 0 0 0 ".to_vec()
    );
}

#[test]
fn plain_bitmap() {
    let bytes = PBM::new(2, 1, Mode::Ascii, &vec![1, 0]).get_bytes();
    assert_eq!(bytes, b"P1\n2 1\n10".to_vec());
}

#[test]
fn plain_graymap() {
    let bytes = PGM::new(Mode::Ascii, 2, 1, 15, &vec![3, 15]).get_bytes();
    assert_eq!(bytes, b"P2\n2 1\n15\n3 15 ".to_vec());
}

#[test]
fn raw_pixmap() {
    let bytes = PPM::new(Mode::Binary, 1, 1, 255, &vec![1, 2, 3]).get_bytes();
    assert_eq!(bytes, b"P6\n1 1\n255\n\x01\x02\x03".to_vec());
}

#[test]
fn pam_file() {
    let pam = PAM::new(TupleType::GrayScaleAlpha, 1, 1, &vec![9, 200]);
    assert_eq!(
        pam.get_bytes(),
        b"P7\nWIDTH 1\nHEIGHT 1\nDEPTH 2\nMAXVAL 256\nTUPLETYPE GRAYSCALE_ALPHA\nENDHDR\n\x09\xc8"
            .to_vec()
    );
    assert_eq!(TupleType::RGBAlpha.to_depth(), 4);
    assert_eq!(TupleType::BlackAndWhite.to_max_value(), 1);
    assert_eq!(TupleType::RGB.to_string(), b"RGB".to_vec());
}

#[test]
fn characters_for_bits() {
    assert_eq!(byte_to_char(&vec![0, 1, 1]), b"011".to_vec());
}

#[test]
fn test_u8_to_bits_8bit() {
    let u8_array: Vec<u8> = vec![1, 1, 1, 1, 1, 1, 1, 1];
    let result = u8_to_bits(&u8_array);
    assert_eq!(1, result.len());
    assert_eq!(255, result[0]);
}

#[test]
fn test_u8_bits_less_than_8_bit() {
    let u8_array: Vec<u8> = vec![0, 1];
    let result = u8_to_bits(&u8_array);
    assert_eq!(1, result.len());
    assert_eq!(64, result[0]);
}

#[test]
fn test_u8_bits_more_than_8_bit() {
    let u8_array: Vec<u8> = vec![0, 0, 0, 0, 0, 0, 0, 1, 1];
    let result = u8_to_bits(&u8_array);
    assert_eq!(2, result.len());
    assert_eq!(1, result[0]);
    assert_eq!(128, result[1]);
}

#[test]
fn netpbm_test_test_save_pbm() {
    let data: Vec<u8> = J.iter().flatten().cloned().collect();
    let bytes = PBM::new(6, 10, Mode::Binary, &data).get_bytes();
    let mut expected = b"P4\n6 10\n".to_vec();
    expected.extend([0x08, 0x08, 0x08, 0x08, 0x08, 0x08, 0x88, 0x70, 0x00, 0x00]);
    assert!(bytes == expected);
}

#[test]
fn netpbm_test_test_save_pgm() {
    let data: Vec<u8> = FEEP.iter().flatten().cloned().collect();
    let bytes = PGM::new(Mode::Ascii, 24, 6, 15, &data).get_bytes();
    let mut expected = b"P2\n24 6\n15\n".to_vec();
    for v in data.iter() {
        expected.extend(format!("{} ", v).bytes());
    }
    assert!(bytes == expected);
}

#[test]
fn netpbm_test_test_save_ppm() {
    let data: Vec<u8> = COLOURS.iter().flatten().flatten().cloned().collect();
    let bytes = PPM::new(Mode::Ascii, 3, 2, 255, &data).get_bytes();
    assert!(bytes == b"P3\n3 2\n255\n255 0 0 0 0 255 0 0 255 255 255 0 255 255 255 0 0 0 ".to_vec());
}

use tiny_img::checksum::adler::{calc as adler_calc, AdlerIterator};
use tiny_img::checksum::crc::{calc as crc_calc, CRCIterator};
use tiny_img::checksum::ChecksumIterator;
use tiny_img::png::PNG;
use tiny_img::Serializable;

fn gradient(alpha: bool) -> Vec<u8> {
    let mut data = Vec::new();
    for outer_index in 0..255usize {
        for inner_index in 0..255usize {
            data.push(outer_index as u8);
            data.push(inner_index as u8);
            data.push(128);
            if alpha {
                data.push(((outer_index as u16 + inner_index as u16) / 2) as u8);
            }
        }
    }
    data
}

fn be32(bytes: &[u8]) -> u32 {
    u32::from_be_bytes([bytes[0], bytes[1], bytes[2], bytes[3]])
}

#[test]
fn test_save_png_without_alpha() {
    let bytes = PNG::new(255, 255, false, &gradient(false)).get_bytes();
    assert_eq!(&bytes[..8], &[0x89, b'P', b'N', b'G', b'\r', b'\n', 0x1a, b'\n']);
    assert_eq!(be32(&bytes[8..12]), 13);
    assert_eq!(&bytes[12..16], b"IHDR");
    assert_eq!(bytes[16 + 9], 2);
    assert_eq!(be32(&bytes[33..37]), 2 + 255 * (6 + 255 * 3) + 4);
}

#[test]
fn test_save_png_with_alpha() {
    let bytes = PNG::new(255, 255, true, &gradient(true)).get_bytes();
    assert_eq!(bytes[16 + 9], 6);
    assert_eq!(be32(&bytes[33..37]), 2 + 255 * (6 + 255 * 4) + 4);
    assert_eq!(&bytes[bytes.len() - 12..], &[0, 0, 0, 0, b'I', b'E', b'N', b'D', 0xae, 0x42, 0x60, 0x82]);
}

#[test]
fn one_pixel_png() {
    let bytes = PNG::new(1, 1, false, &vec![10, 20, 30]).get_bytes();
    let idat_start = 8 + 25;
    assert_eq!(be32(&bytes[idat_start..idat_start + 4]), 2 + 6 + 3 + 4);
    assert_eq!(&bytes[idat_start + 4..idat_start + 8], b"IDAT");
    let payload = &bytes[idat_start + 8..idat_start + 8 + 15];
    // zlib header, final stored block of 4 bytes, filter 0, the pixel, Adler-32.
    let adler = adler_calc(&vec![0, 10, 20, 30]).to_be_bytes();
    assert_eq!(
        payload,
        &[0x78, 0x01, 1, 4, 0, 0xfb, 0xff, 0, 10, 20, 30, adler[0], adler[1], adler[2], adler[3]]
    );
    let mut crc_input = b"IDAT".to_vec();
    crc_input.extend_from_slice(payload);
    assert_eq!(be32(&bytes[idat_start + 23..idat_start + 27]), crc_calc(&crc_input));
}

#[test]
fn known_checksums() {
    assert_eq!(crc_calc(&b"IEND".to_vec()), 0xae42_6082);
    assert_eq!(crc_calc(&b"123456789".to_vec()), 0xcbf4_3926);
    assert_eq!(adler_calc(&b"Wikipedia".to_vec()), 0x11e6_0398);
    assert_eq!(adler_calc(&Vec::new()), 1);
}

#[test]
fn checksums_in_pieces() {
    let mut crc = CRCIterator::new();
    crc.iter(&b"1234".to_vec());
    crc.iter(&b"56789".to_vec());
    assert_eq!(crc.get(), 0xcbf4_3926);
    let mut adler = AdlerIterator::new();
    adler.iter(&b"Wiki".to_vec());
    adler.iter(&b"pedia".to_vec());
    assert_eq!(adler.get(), 0x11e6_0398);
}

/// Checks the chunk layout of a PNG file: lengths, names and CRCs.
fn check_chunks(bytes: &[u8], width: u32, height: u32, colour_type: u8) {
    let mut at = 8;
    let mut names = Vec::new();
    while at < bytes.len() {
        let length = be32(&bytes[at..at + 4]) as usize;
        let body = bytes[at + 4..at + 8 + length].to_vec();
        assert_eq!(be32(&bytes[at + 8 + length..at + 12 + length]), crc_calc(&body));
        names.push(body[..4].to_vec());
        at += 12 + length;
    }
    assert_eq!(at, bytes.len());
    assert_eq!(names, vec![b"IHDR".to_vec(), b"IDAT".to_vec(), b"IEND".to_vec()]);
    assert_eq!(be32(&bytes[16..20]), width);
    assert_eq!(be32(&bytes[20..24]), height);
    assert_eq!(bytes[25], colour_type);
}

#[test]
fn png_test_test_save_png_rgb() {
    let bytes = PNG::new(255, 255, false, &gradient(false)).get_bytes();
    check_chunks(&bytes, 255, 255, 2);
    assert!(bytes.len() == 8 + 25 + 12 + (2 + 255 * (6 + 255 * 3) + 4) + 12);
}

#[test]
fn test_save_png_rgba() {
    let bytes = PNG::new(255, 255, true, &gradient(true)).get_bytes();
    check_chunks(&bytes, 255, 255, 6);
    assert!(bytes.len() == 8 + 25 + 12 + (2 + 255 * (6 + 255 * 4) + 4) + 12);
}

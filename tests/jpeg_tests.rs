use tiny_img::jpg::common::Bits;
use tiny_img::jpg::jpeg::{
    block_mode, encode_scan, rgb_2_ycbcr, subsampling, Mode, JPEG, SOS, ZIG_ZAG_ORDER,
};
use tiny_img::jpg::quant::quant_table;
use tiny_img::jpg::rle::EncodeError;
use tiny_img::jpg::to_rgba;
use tiny_img::Serializable;

const SAMPLE: [[u8; 8]; 8] = [
    [52, 55, 61, 66, 70, 61, 64, 73],
    [63, 59, 55, 90, 109, 85, 69, 72],
    [62, 59, 68, 113, 144, 104, 66, 73],
    [63, 58, 71, 122, 154, 106, 70, 69],
    [67, 61, 68, 104, 126, 88, 68, 70],
    [79, 65, 60, 70, 77, 68, 58, 75],
    [85, 71, 64, 59, 55, 61, 65, 83],
    [87, 79, 69, 68, 65, 76, 78, 94],
];

/// The level-shifted 2-D DCT-II of a block, row by row.
fn dct(block: &[i32; 64]) -> [f64; 64] {
    let mut result = [0.0; 64];
    for v in 0..8 {
        for u in 0..8 {
            let a_u = if u == 0 { 1. / 2_f64.sqrt() } else { 1. };
            let a_v = if v == 0 { 1. / 2_f64.sqrt() } else { 1. };
            let mut sum = 0.;
            for y in 0..8 {
                for x in 0..8 {
                    let cos2 = f64::cos((2 * x + 1) as f64 * u as f64 * std::f64::consts::PI / 16.);
                    let cos1 = f64::cos((2 * y + 1) as f64 * v as f64 * std::f64::consts::PI / 16.);
                    sum += (block[y * 8 + x] - 128) as f64 * cos1 * cos2;
                }
            }
            result[v * 8 + u] = 0.25 * a_u * a_v * sum;
        }
    }
    result
}

/// Zig-zag order and quantization with the plane's table.
fn quantize(coefficients: &[f64; 64], mode: Mode) -> [i32; 64] {
    let table = quant_table(mode);
    let mut result = [0; 64];
    for i in 0..64 {
        result[i] = (coefficients[ZIG_ZAG_ORDER[i]] / table[i / 8][i % 8] as f64).round() as i32;
    }
    result
}

/// The file bytes of an image, through the whole pipeline.
fn encode_image(width: u16, height: u16, component: u8, data: &Vec<u8>) -> Vec<u8> {
    let sos = SOS::new(width, height, component, data);
    let blocks = sos.blocks();
    let quantized: Vec<[i32; 64]> = blocks
        .iter()
        .enumerate()
        .map(|(k, b)| quantize(&dct(b), block_mode(component, k)))
        .collect();
    JPEG::new(width, height, component, &quantized).unwrap().get_bytes()
}

const GRAY_FILE: [u8; 388] = [
    0xff, 0xd8, 0xff, 0xdb, 0x00, 0x84, 0x00, 0x08, 0x06, 0x06, 0x07, 0x06,
    0x05, 0x08, 0x07, 0x07, 0x07, 0x09, 0x09, 0x08, 0x0a, 0x0c, 0x14, 0x0d,
    0x0c, 0x0b, 0x0b, 0x0c, 0x19, 0x12, 0x13, 0x0f, 0x14, 0x1d, 0x1a, 0x1f,
    0x1e, 0x1d, 0x1a, 0x1c, 0x1c, 0x20, 0x24, 0x2e, 0x27, 0x20, 0x22, 0x2c,
    0x23, 0x1c, 0x1c, 0x28, 0x37, 0x29, 0x2c, 0x30, 0x31, 0x34, 0x34, 0x34,
    0x1f, 0x27, 0x39, 0x3d, 0x38, 0x32, 0x3c, 0x2e, 0x33, 0x34, 0x32, 0x01,
    0x09, 0x09, 0x09, 0x0c, 0x0b, 0x0c, 0x18, 0x0d, 0x0d, 0x18, 0x32, 0x21,
    0x1c, 0x21, 0x32, 0x32, 0x32, 0x32, 0x32, 0x32, 0x32, 0x32, 0x32, 0x32,
    0x32, 0x32, 0x32, 0x32, 0x32, 0x32, 0x32, 0x32, 0x32, 0x32, 0x32, 0x32,
    0x32, 0x32, 0x32, 0x32, 0x32, 0x32, 0x32, 0x32, 0x32, 0x32, 0x32, 0x32,
    0x32, 0x32, 0x32, 0x32, 0x32, 0x32, 0x32, 0x32, 0x32, 0x32, 0x32, 0x32,
    0x32, 0x32, 0x32, 0x32, 0xff, 0xc0, 0x00, 0x0b, 0x08, 0x00, 0x08, 0x00,
    0x08, 0x01, 0x01, 0x11, 0x00, 0xff, 0xc4, 0x00, 0xd2, 0x00, 0x00, 0x01,
    0x05, 0x01, 0x01, 0x01, 0x01, 0x01, 0x01, 0x00, 0x00, 0x00, 0x00, 0x00,
    0x00, 0x00, 0x00, 0x01, 0x02, 0x03, 0x04, 0x05, 0x06, 0x07, 0x08, 0x09,
    0x0a, 0x0b, 0x10, 0x00, 0x02, 0x01, 0x03, 0x03, 0x02, 0x04, 0x03, 0x05,
    0x05, 0x04, 0x04, 0x00, 0x00, 0x01, 0x7d, 0x01, 0x02, 0x03, 0x00, 0x04,
    0x11, 0x05, 0x12, 0x21, 0x31, 0x41, 0x06, 0x13, 0x51, 0x61, 0x07, 0x22,
    0x71, 0x14, 0x32, 0x81, 0x91, 0xa1, 0x08, 0x23, 0x42, 0xb1, 0xc1, 0x15,
    0x52, 0xd1, 0xf0, 0x24, 0x33, 0x62, 0x72, 0x82, 0x09, 0x0a, 0x16, 0x17,
    0x18, 0x19, 0x1a, 0x25, 0x26, 0x27, 0x28, 0x29, 0x2a, 0x34, 0x35, 0x36,
    0x37, 0x38, 0x39, 0x3a, 0x43, 0x44, 0x45, 0x46, 0x47, 0x48, 0x49, 0x4a,
    0x53, 0x54, 0x55, 0x56, 0x57, 0x58, 0x59, 0x5a, 0x63, 0x64, 0x65, 0x66,
    0x67, 0x68, 0x69, 0x6a, 0x73, 0x74, 0x75, 0x76, 0x77, 0x78, 0x79, 0x7a,
    0x83, 0x84, 0x85, 0x86, 0x87, 0x88, 0x89, 0x8a, 0x92, 0x93, 0x94, 0x95,
    0x96, 0x97, 0x98, 0x99, 0x9a, 0xa2, 0xa3, 0xa4, 0xa5, 0xa6, 0xa7, 0xa8,
    0xa9, 0xaa, 0xb2, 0xb3, 0xb4, 0xb5, 0xb6, 0xb7, 0xb8, 0xb9, 0xba, 0xc2,
    0xc3, 0xc4, 0xc5, 0xc6, 0xc7, 0xc8, 0xc9, 0xca, 0xd2, 0xd3, 0xd4, 0xd5,
    0xd6, 0xd7, 0xd8, 0xd9, 0xda, 0xe1, 0xe2, 0xe3, 0xe4, 0xe5, 0xe6, 0xe7,
    0xe8, 0xe9, 0xea, 0xf1, 0xf2, 0xf3, 0xf4, 0xf5, 0xf6, 0xf7, 0xf8, 0xf9,
    0xfa, 0xff, 0xda, 0x00, 0x08, 0x01, 0x01, 0x00, 0x00, 0x3f, 0x00, 0xe2,
    0xe2, 0x30, 0x47, 0x66, 0xf6, 0xc6, 0x02, 0x6e, 0x8c, 0xa0, 0xab, 0x81,
    0xc0, 0x15, 0xff, 0xd9,
];

const RGB_FILE: [u8; 618] = [
    0xff, 0xd8, 0xff, 0xdb, 0x00, 0x84, 0x00, 0x08, 0x06, 0x06, 0x07, 0x06,
    0x05, 0x08, 0x07, 0x07, 0x07, 0x09, 0x09, 0x08, 0x0a, 0x0c, 0x14, 0x0d,
    0x0c, 0x0b, 0x0b, 0x0c, 0x19, 0x12, 0x13, 0x0f, 0x14, 0x1d, 0x1a, 0x1f,
    0x1e, 0x1d, 0x1a, 0x1c, 0x1c, 0x20, 0x24, 0x2e, 0x27, 0x20, 0x22, 0x2c,
    0x23, 0x1c, 0x1c, 0x28, 0x37, 0x29, 0x2c, 0x30, 0x31, 0x34, 0x34, 0x34,
    0x1f, 0x27, 0x39, 0x3d, 0x38, 0x32, 0x3c, 0x2e, 0x33, 0x34, 0x32, 0x01,
    0x09, 0x09, 0x09, 0x0c, 0x0b, 0x0c, 0x18, 0x0d, 0x0d, 0x18, 0x32, 0x21,
    0x1c, 0x21, 0x32, 0x32, 0x32, 0x32, 0x32, 0x32, 0x32, 0x32, 0x32, 0x32,
    0x32, 0x32, 0x32, 0x32, 0x32, 0x32, 0x32, 0x32, 0x32, 0x32, 0x32, 0x32,
    0x32, 0x32, 0x32, 0x32, 0x32, 0x32, 0x32, 0x32, 0x32, 0x32, 0x32, 0x32,
    0x32, 0x32, 0x32, 0x32, 0x32, 0x32, 0x32, 0x32, 0x32, 0x32, 0x32, 0x32,
    0x32, 0x32, 0x32, 0x32, 0xff, 0xc0, 0x00, 0x11, 0x08, 0x00, 0x08, 0x00,
    0x08, 0x03, 0x01, 0x22, 0x00, 0x02, 0x11, 0x01, 0x03, 0x11, 0x01, 0xff,
    0xc4, 0x01, 0xa2, 0x00, 0x00, 0x01, 0x05, 0x01, 0x01, 0x01, 0x01, 0x01,
    0x01, 0x00, 0x00, 0x00, 0x00, 0x00, 0x00, 0x00, 0x00, 0x01, 0x02, 0x03,
    0x04, 0x05, 0x06, 0x07, 0x08, 0x09, 0x0a, 0x0b, 0x10, 0x00, 0x02, 0x01,
    0x03, 0x03, 0x02, 0x04, 0x03, 0x05, 0x05, 0x04, 0x04, 0x00, 0x00, 0x01,
    0x7d, 0x01, 0x02, 0x03, 0x00, 0x04, 0x11, 0x05, 0x12, 0x21, 0x31, 0x41,
    0x06, 0x13, 0x51, 0x61, 0x07, 0x22, 0x71, 0x14, 0x32, 0x81, 0x91, 0xa1,
    0x08, 0x23, 0x42, 0xb1, 0xc1, 0x15, 0x52, 0xd1, 0xf0, 0x24, 0x33, 0x62,
    0x72, 0x82, 0x09, 0x0a, 0x16, 0x17, 0x18, 0x19, 0x1a, 0x25, 0x26, 0x27,
    0x28, 0x29, 0x2a, 0x34, 0x35, 0x36, 0x37, 0x38, 0x39, 0x3a, 0x43, 0x44,
    0x45, 0x46, 0x47, 0x48, 0x49, 0x4a, 0x53, 0x54, 0x55, 0x56, 0x57, 0x58,
    0x59, 0x5a, 0x63, 0x64, 0x65, 0x66, 0x67, 0x68, 0x69, 0x6a, 0x73, 0x74,
    0x75, 0x76, 0x77, 0x78, 0x79, 0x7a, 0x83, 0x84, 0x85, 0x86, 0x87, 0x88,
    0x89, 0x8a, 0x92, 0x93, 0x94, 0x95, 0x96, 0x97, 0x98, 0x99, 0x9a, 0xa2,
    0xa3, 0xa4, 0xa5, 0xa6, 0xa7, 0xa8, 0xa9, 0xaa, 0xb2, 0xb3, 0xb4, 0xb5,
    0xb6, 0xb7, 0xb8, 0xb9, 0xba, 0xc2, 0xc3, 0xc4, 0xc5, 0xc6, 0xc7, 0xc8,
    0xc9, 0xca, 0xd2, 0xd3, 0xd4, 0xd5, 0xd6, 0xd7, 0xd8, 0xd9, 0xda, 0xe1,
    0xe2, 0xe3, 0xe4, 0xe5, 0xe6, 0xe7, 0xe8, 0xe9, 0xea, 0xf1, 0xf2, 0xf3,
    0xf4, 0xf5, 0xf6, 0xf7, 0xf8, 0xf9, 0xfa, 0x01, 0x00, 0x03, 0x01, 0x01,
    0x01, 0x01, 0x01, 0x01, 0x01, 0x01, 0x01, 0x00, 0x00, 0x00, 0x00, 0x00,
    0x00, 0x01, 0x02, 0x03, 0x04, 0x05, 0x06, 0x07, 0x08, 0x09, 0x0a, 0x0b,
    0x11, 0x00, 0x02, 0x01, 0x02, 0x04, 0x04, 0x03, 0x04, 0x07, 0x05, 0x04,
    0x04, 0x00, 0x01, 0x02, 0x77, 0x00, 0x01, 0x02, 0x03, 0x11, 0x04, 0x05,
    0x21, 0x31, 0x06, 0x12, 0x41, 0x51, 0x07, 0x61, 0x71, 0x13, 0x22, 0x32,
    0x81, 0x08, 0x14, 0x42, 0x91, 0xa1, 0xb1, 0xc1, 0x09, 0x23, 0x33, 0x52,
    0xf0, 0x15, 0x62, 0x72, 0xd1, 0x0a, 0x16, 0x24, 0x34, 0xe1, 0x25, 0xf1,
    0x17, 0x18, 0x19, 0x1a, 0x26, 0x27, 0x28, 0x29, 0x2a, 0x35, 0x36, 0x37,
    0x38, 0x39, 0x3a, 0x43, 0x44, 0x45, 0x46, 0x47, 0x48, 0x49, 0x4a, 0x53,
    0x54, 0x55, 0x56, 0x57, 0x58, 0x59, 0x5a, 0x63, 0x64, 0x65, 0x66, 0x67,
    0x68, 0x69, 0x6a, 0x73, 0x74, 0x75, 0x76, 0x77, 0x78, 0x79, 0x7a, 0x82,
    0x83, 0x84, 0x85, 0x86, 0x87, 0x88, 0x89, 0x8a, 0x92, 0x93, 0x94, 0x95,
    0x96, 0x97, 0x98, 0x99, 0x9a, 0xa2, 0xa3, 0xa4, 0xa5, 0xa6, 0xa7, 0xa8,
    0xa9, 0xaa, 0xb2, 0xb3, 0xb4, 0xb5, 0xb6, 0xb7, 0xb8, 0xb9, 0xba, 0xc2,
    0xc3, 0xc4, 0xc5, 0xc6, 0xc7, 0xc8, 0xc9, 0xca, 0xd2, 0xd3, 0xd4, 0xd5,
    0xd6, 0xd7, 0xd8, 0xd9, 0xda, 0xe2, 0xe3, 0xe4, 0xe5, 0xe6, 0xe7, 0xe8,
    0xe9, 0xea, 0xf2, 0xf3, 0xf4, 0xf5, 0xf6, 0xf7, 0xf8, 0xf9, 0xfa, 0xff,
    0xda, 0x00, 0x0c, 0x03, 0x01, 0x00, 0x02, 0x11, 0x03, 0x11, 0x00, 0x3f,
    0x00, 0xe2, 0xe2, 0x30, 0x47, 0x66, 0xf6, 0xc6, 0x02, 0x6e, 0x8c, 0xa0,
    0xab, 0x81, 0xc0, 0x14, 0x79, 0x13, 0x7f, 0x72, 0x95, 0x7f, 0xe3, 0xfb,
    0xf1, 0xad, 0x1a, 0x00, 0xff, 0xd9,
];

#[test]
fn test_get_block_ycbr() {
    let test = SOS { width: 16, height: 16, component: 3, data: vec![1; 16 * 16 * 4] };
    let result = test.convert_rgb_blocks_to_ycbcr_blocks(0, 0);
    println!("{:?}", result);
    // (1, 1, 1) is Y 1, Cb 128, Cr 128 everywhere.
    for q in 0..4 {
        for i in 0..64 {
            assert_eq!((result.0[q][i], result.1[q][i], result.2[q][i]), (1, 128, 128));
        }
    }
}

#[test]
fn test_save_jpeg() {
    let data: Vec<u8> = SAMPLE.iter().flatten().cloned().collect();
    let bytes = encode_image(8, 8, 1, &data);
    assert_eq!(&bytes[..2], &[0xff, 0xd8]);
    assert_eq!(&bytes[bytes.len() - 2..], &[0xff, 0xd9]);
}

#[test]
fn test_save_rgb_jpeg() {
    let mut data = [[[0u8; 3]; 8]; 8];
    for y in 0..8 {
        for x in 0..8 {
            data[y][x] = [SAMPLE[y][x]; 3];
        }
    }
    let rgb: Vec<u8> = data.iter().flatten().flatten().cloned().collect();
    let bytes = encode_image(8, 8, 3, &to_rgba(&rgb));
    assert_eq!(&bytes[..2], &[0xff, 0xd8]);
    assert_eq!(&bytes[bytes.len() - 2..], &[0xff, 0xd9]);
}

#[test]
fn gray_sample_file_is_byte_exact() {
    let data: Vec<u8> = SAMPLE.iter().flatten().cloned().collect();
    assert_eq!(encode_image(8, 8, 1, &data), GRAY_FILE.to_vec());
}

#[test]
fn rgb_sample_file_is_byte_exact() {
    let mut rgb = Vec::new();
    for v in SAMPLE.iter().flatten() {
        rgb.extend([*v, *v, *v]);
    }
    assert_eq!(encode_image(8, 8, 3, &to_rgba(&rgb)), RGB_FILE.to_vec());
}

#[test]
fn sample_dc_coefficient() {
    let mut block = [0; 64];
    for i in 0..64 {
        block[i] = SAMPLE[i / 8][i % 8] as i32;
    }
    let d = dct(&block);
    assert!((d[0] + 415.375).abs() < 1e-9);
    assert_eq!(quantize(&d, Mode::Luminance)[0], -52);
}

#[test]
fn gray_edges_repeat_last_row_and_column() {
    // 10x10 image whose pixel (x, y) holds 10 * y + x.
    let data: Vec<u8> = (0..100).map(|v| v as u8).collect();
    let sos = SOS::new(10, 10, 1, &data);
    let blocks = sos.blocks();
    assert_eq!(blocks.len(), 4);
    // Block 1 starts at x = 8: columns 8, 9, then 9 repeated.
    assert_eq!(&blocks[1][..8], &[8, 9, 9, 9, 9, 9, 9, 9]);
    // Block 2 starts at y = 8: rows 8, 9, then row 9 repeated.
    assert_eq!(blocks[2][0], 80);
    assert_eq!(blocks[2][8], 90);
    assert_eq!(blocks[2][63], 97);
    // Block 3: everything past (9, 9) is pixel (9, 9).
    assert_eq!(blocks[3][63], 99);
    assert_eq!(sos.get_gray_block(8, 8)[9], 99);
}

#[test]
fn colour_units_and_subsampling() {
    // 2x1 image: red then blue; everything else repeats the edge.
    let data = vec![255, 0, 0, 255, 0, 0, 255, 255];
    let sos = SOS::new(2, 1, 3, &data);
    let blocks = sos.blocks();
    assert_eq!(blocks.len(), 6);
    let red = rgb_2_ycbcr(255, 0, 0);
    let blue = rgb_2_ycbcr(0, 0, 255);
    assert_eq!(blocks[0][0], red.0 as i32);
    assert_eq!(blocks[0][1], blue.0 as i32);
    assert_eq!(blocks[3][63], blue.0 as i32);
    // The first chroma sample averages two red and two blue samples (row 0 repeats).
    let cb = (2 * red.1 as i32 + 2 * blue.1 as i32 + 2) / 4;
    assert_eq!(blocks[4][0], cb);
    assert_eq!(blocks[4][1], blue.1 as i32);
}

#[test]
fn colour_conversion() {
    assert_eq!(rgb_2_ycbcr(255, 0, 0), (76, 85, 255));
    assert_eq!(rgb_2_ycbcr(0, 0, 255), (29, 255, 107));
    assert_eq!(rgb_2_ycbcr(128, 128, 128), (128, 128, 128));
    assert_eq!(rgb_2_ycbcr(0, 0, 0), (0, 128, 128));
    assert_eq!(rgb_2_ycbcr(255, 255, 255), (255, 128, 128));
}

#[test]
fn subsampling_averages_squares() {
    let mut data = [[0; 64]; 4];
    for q in 0..4 {
        for i in 0..64 {
            data[q][i] = ((q * 64 + i) % 256) as i32;
        }
    }
    let r = subsampling(data);
    // Output (0, 0): samples 0, 1, 8, 9 of block 0.
    assert_eq!(r[0], (0 + 1 + 8 + 9 + 2) / 4);
    // Output (0, 1): samples 16, 17, 24, 25 of block 0.
    assert_eq!(r[8], (16 + 17 + 24 + 25 + 2) / 4);
    // Output (4, 4): samples 0, 1, 8, 9 of block 3.
    assert_eq!(r[36], (192 + 193 + 200 + 201 + 2) / 4);
}

#[test]
fn scan_padding_and_errors() {
    // One all-zero gray block: DC 00, end of block 1010, then two padding ones.
    assert_eq!(encode_scan(1, &vec![[0; 64]]), Ok(vec![0b0010_1011]));
    // Two blocks whose DC is 2: 011 10 1010, then the difference 0: 00 1010, then one padding 1.
    let mut b = [0; 64];
    b[0] = 2;
    assert_eq!(encode_scan(1, &vec![b, b]), Ok(vec![0b0111_0101, 0b0001_0101]));
    let mut bad = [0; 64];
    bad[1] = 4096;
    assert_eq!(encode_scan(1, &vec![bad]), Err(EncodeError::UnsupportedCoefficient));
    assert!(JPEG::new(8, 8, 1, &vec![bad]).is_err());
}

#[test]
fn rgba_widening() {
    assert_eq!(to_rgba(&vec![1, 2, 3, 4, 5, 6]), vec![1, 2, 3, 255, 4, 5, 6, 255]);
}

#[test]
fn completion_after_scan() {
    let b = Bits::new(6, 0b101010);
    let first = b.complete();
    let second = b.complete();
    assert_eq!(first, second);
    assert_eq!(first, (0b1010_1011, false));
}

#[test]
fn test_save_jpg_gray() {
    let data: Vec<u8> = SAMPLE.iter().flatten().cloned().collect();
    assert!(encode_image(8, 8, 1, &data) == GRAY_FILE.to_vec());
}

#[test]
fn test_save_jpg_rgb() {
    let mut data = [[[0u8; 3]; 8]; 8];
    for y in 0..8 {
        for x in 0..8 {
            data[y][x] = [SAMPLE[y][x]; 3];
        }
    }
    let rgb: Vec<u8> = data.iter().flatten().flatten().cloned().collect();
    assert!(encode_image(8, 8, 3, &to_rgba(&rgb)) == RGB_FILE.to_vec());
}

#[test]
fn planes_of_colour_blocks() {
    assert_eq!(block_mode(1, 5), Mode::Luminance);
    assert_eq!(block_mode(3, 3), Mode::Luminance);
    assert_eq!(block_mode(3, 4), Mode::Chromiance);
    assert_eq!(block_mode(3, 5), Mode::Chromiance);
    assert_eq!(block_mode(3, 6), Mode::Luminance);
}

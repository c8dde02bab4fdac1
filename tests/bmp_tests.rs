use tiny_img::bmp::{get_data_size, BMP};
use tiny_img::Serializable;

#[test]
fn bmp_test_test_save_png_rgb() {
    let mut data = Vec::new();
    for outer_index in 0..255usize {
        for inner_index in 0..255usize {
            data.extend([outer_index as u8, inner_index as u8, 128]);
        }
    }
    let bytes = BMP::new(255, 255, &data).get_bytes();
    assert_eq!(&bytes[..2], b"BM");
    assert_eq!(bytes.len(), 54 + 255 * 768);
}

#[test]
fn two_by_two_bmp() {
    // Top row: red, green; bottom row: blue, white.
    let data = vec![255, 0, 0, 0, 255, 0, 0, 0, 255, 255, 255, 255];
    let bytes = BMP::new(2, 2, &data).get_bytes();
    assert_eq!(u32::from_le_bytes([bytes[2], bytes[3], bytes[4], bytes[5]]), 54 + 16);
    assert_eq!(u32::from_le_bytes([bytes[10], bytes[11], bytes[12], bytes[13]]), 54);
    assert_eq!(u32::from_le_bytes([bytes[14], bytes[15], bytes[16], bytes[17]]), 40);
    assert_eq!(u16::from_le_bytes([bytes[28], bytes[29]]), 24);
    // Bottom row first, each pixel blue-green-red, rows padded to 8 bytes.
    assert_eq!(
        &bytes[54..],
        &[255, 0, 0, 255, 255, 255, 0, 0, 0, 0, 255, 0, 255, 0, 0, 0]
    );
}

#[test]
fn data_sizes() {
    assert_eq!(get_data_size(1, 1), 4);
    assert_eq!(get_data_size(4, 3), 36);
    assert_eq!(get_data_size(5, 2), 32);
    assert_eq!(get_data_size(255, 255), 255 * 768);
}

use vstd::prelude::*;

use crate::bytes::{extend, le16, le32, push_le16, push_le32};
use crate::Serializable;

verus! {

/// Bytes per row of pixel data: three per pixel, padded to a multiple of four.
pub open spec fn row_size(width: int) -> int {
    (3 * width + 3) / 4 * 4
}

/// Row `y` of the pixel array: image row `height - 1 - y` (the array runs bottom up), each
/// pixel as blue, green, red, then zero padding.
pub open spec fn bmp_row(data: Seq<u8>, width: int, height: int, y: int) -> Seq<u8> {
    Seq::new(
        row_size(width) as nat,
        |c: int|
            if c < 3 * width {
                data[3 * ((height - 1 - y) * width + c / 3) + 2 - c % 3]
            } else {
                0u8
            },
    )
}

/// The first `n` rows of the pixel array.
pub open spec fn bmp_rows(data: Seq<u8>, width: int, height: int, n: int) -> Seq<u8>
    decreases n,
{
    if n <= 0 {
        Seq::empty()
    } else {
        bmp_rows(data, width, height, n - 1) + bmp_row(data, width, height, n - 1)
    }
}

/// The file header: "BM", the file size, four reserved zero bytes, the pixel data offset.
pub struct Header {
    pub magic_number: [u8; 2],
    pub file_size: u32,
    pub data_offset: u32,
}

/// The BITMAPINFOHEADER: 24-bit, uncompressed.
pub struct DIB {
    pub size: u32,
    pub width: u32,
    pub height: u32,
    pub plane_num: u16,
    pub depth: u16,
    pub compression: u32,
    pub data_size: u32,
    pub horizental_resolution: u32,
    pub vertical_resolution: u32,
    pub palette_color_num: u32,
    pub importance_color: u32,
}

/// The pixel array as stored in the file.
pub struct Data {
    pub bytes: Vec<u8>,
}

/// A 24-bit BMP image.
pub struct BMP {
    pub header: Header,
    pub dib: DIB,
    pub data: Data,
}

impl Header {
    pub open spec fn spec_bytes(&self) -> Seq<u8> {
        self.magic_number@ + le32(self.file_size as int) + seq![0u8, 0, 0, 0] + le32(
            self.data_offset as int,
        )
    }

    pub fn new(width: u32, height: u32) -> (r: Self)
        requires
            54 + height * row_size(width as int) <= u32::MAX,
        ensures
            r.magic_number@ == seq![0x42u8, 0x4d],
            r.file_size == 54 + height * row_size(width as int),
            r.data_offset == 54,
    {
        let r = Header { magic_number: [66, 77], file_size: 54 + get_data_size(width, height), data_offset: 54 };
        proof {
            assert(r.magic_number@ =~= seq![0x42u8, 0x4d]);
        }
        r
    }

    pub fn get_bytes(&self) -> (r: Vec<u8>)
        ensures
            r@ == self.spec_bytes(),
    {
        let mut bytes: Vec<u8> = Vec::new();
        extend(&mut bytes, self.magic_number.as_slice());
        push_le32(&mut bytes, self.file_size);
        extend(&mut bytes, [0u8, 0, 0, 0].as_slice());
        push_le32(&mut bytes, self.data_offset);
        proof {
            assert(bytes@ =~= self.spec_bytes());
        }
        bytes
    }
}

impl DIB {
    pub open spec fn spec_bytes(&self) -> Seq<u8> {
        le32(self.size as int) + le32(self.width as int) + le32(self.height as int) + le16(
            self.plane_num as int,
        ) + le16(self.depth as int) + le32(self.compression as int) + le32(self.data_size as int)
            + le32(self.horizental_resolution as int) + le32(self.vertical_resolution as int)
            + le32(self.palette_color_num as int) + le32(self.importance_color as int)
    }

    pub fn new(width: u32, height: u32) -> (r: Self)
        requires
            height * row_size(width as int) <= u32::MAX,
        ensures
            r.size == 40,
            r.width == width,
            r.height == height,
            r.plane_num == 1,
            r.depth == 24,
            r.compression == 0,
            r.data_size == height * row_size(width as int),
            r.horizental_resolution == 1000,
            r.vertical_resolution == 1000,
            r.palette_color_num == 0,
            r.importance_color == 0,
    {
        DIB {
            size: 40,
            width,
            height,
            plane_num: 1,
            depth: 24,
            compression: 0,
            data_size: get_data_size(width, height),
            horizental_resolution: 1000,
            vertical_resolution: 1000,
            palette_color_num: 0,
            importance_color: 0,
        }
    }

    pub fn get_bytes(&self) -> (r: Vec<u8>)
        ensures
            r@ == self.spec_bytes(),
    {
        let mut bytes: Vec<u8> = Vec::new();
        push_le32(&mut bytes, self.size);
        push_le32(&mut bytes, self.width);
        push_le32(&mut bytes, self.height);
        push_le16(&mut bytes, self.plane_num);
        push_le16(&mut bytes, self.depth);
        push_le32(&mut bytes, self.compression);
        push_le32(&mut bytes, self.data_size);
        push_le32(&mut bytes, self.horizental_resolution);
        push_le32(&mut bytes, self.vertical_resolution);
        push_le32(&mut bytes, self.palette_color_num);
        push_le32(&mut bytes, self.importance_color);
        proof {
            assert(bytes@ =~= self.spec_bytes());
        }
        bytes
    }
}

proof fn lemma_pixel_index(x: int, yy: int, w: int, h: int)
    requires
        0 <= x < w,
        0 <= yy < h,
    ensures
        0 <= yy * w,
        3 * (yy * w + x) + 2 < 3 * (w * h),
{
    assert(yy * w + x < w * h) by (nonlinear_arith)
        requires
            0 <= x < w,
            0 <= yy < h,
    ;
    assert(0 <= yy * w) by (nonlinear_arith)
        requires
            0 <= x < w,
            0 <= yy < h,
    ;
}

impl Data {
    /// Lays out `data` (RGB pixels, row by row from the top) as a pixel array.
    pub fn new(width: u32, height: u32, data: &Vec<u8>) -> (r: Self)
        requires
            data@.len() == 3 * (width * height),
            height * row_size(width as int) <= u32::MAX,
        ensures
            r.bytes@ == bmp_rows(data@, width as int, height as int, height as int),
    {
        let w = width as usize;
        let h = height as usize;
        let len = data.len();
        let rs64: u64 = (3 * (width as u64) + 3) / 4 * 4;
        let mut bytes: Vec<u8> = Vec::new();
        let mut y: usize = 0;
        while y < h
            invariant
                w == width,
                h == height,
                len == data@.len(),
                data@.len() == 3 * (width * height),
                rs64 == row_size(width as int),
                height * row_size(width as int) <= u32::MAX,
                y <= h,
                bytes@ == bmp_rows(data@, w as int, h as int, y as int),
            decreases h - y,
        {
            assert(rs64 <= height * rs64) by (nonlinear_arith)
                requires
                    height >= 1,
                    rs64 >= 0,
            ;
            let rs = rs64 as usize;
            let ghost expected = bmp_row(data@, w as int, h as int, y as int);
            let mut row: Vec<u8> = Vec::new();
            let yy = h - 1 - y;
            let mut x: usize = 0;
            while x < w
                invariant
                    w == width,
                    h == height,
                    len == data@.len(),
                    data@.len() == 3 * (width * height),
                    rs == row_size(width as int),
                    y < h,
                    yy == h - 1 - y,
                    x <= w,
                    expected == bmp_row(data@, w as int, h as int, y as int),
                    row@ == expected.subrange(0, 3 * x as int),
                decreases w - x,
            {
                proof {
                    lemma_pixel_index(x as int, yy as int, w as int, h as int);
                }
                let offset = yy * w + x;
                row.push(data[offset * 3 + 2]);
                row.push(data[offset * 3 + 1]);
                row.push(data[offset * 3]);
                proof {
                    let c = 3 * x as int;
                    assert(c / 3 == x && c % 3 == 0);
                    assert((c + 1) / 3 == x && (c + 1) % 3 == 1);
                    assert((c + 2) / 3 == x && (c + 2) % 3 == 2);
                    assert(row@ =~= expected.subrange(0, 3 * (x + 1)));
                }
                x = x + 1;
            }
            let mut c: usize = 3 * w;
            while c < rs
                invariant
                    c <= rs,
                    3 * w <= c,
                    expected.len() == rs,
                    expected == bmp_row(data@, w as int, h as int, y as int),
                    row@ == expected.subrange(0, c as int),
                    w == width,
                decreases rs - c,
            {
                row.push(0);
                c = c + 1;
                proof {
                    assert(row@ =~= expected.subrange(0, c as int));
                }
            }
            let ghost before = bytes@;
            bytes.append(&mut row);
            proof {
                assert(expected.subrange(0, rs as int) =~= expected);
            }
            y = y + 1;
        }
        Data { bytes }
    }
}

/// The size of the pixel array: `height` rows of `row_size(width)` bytes.
pub fn get_data_size(width: u32, height: u32) -> (r: u32)
    requires
        height * row_size(width as int) <= u32::MAX,
    ensures
        r == height * row_size(width as int),
{
    if height == 0 {
        return 0;
    }
    let row_size = (3 * width as u64 + 3) / 4 * 4;
    assert(row_size <= height * row_size) by (nonlinear_arith)
        requires
            height >= 1,
            row_size >= 0,
    ;
    height * (row_size as u32)
}

impl BMP {
    /// A `width`×`height` image from RGB pixels given row by row from the top.
    pub fn new(width: u32, height: u32, data: &Vec<u8>) -> (r: Self)
        requires
            data@.len() == 3 * (width * height),
            54 + height * row_size(width as int) <= u32::MAX,
        ensures
            r.header.magic_number@ == seq![0x42u8, 0x4d],
            r.header.file_size == 54 + height * row_size(width as int),
            r.header.data_offset == 54,
            r.dib.size == 40 && r.dib.width == width && r.dib.height == height,
            r.dib.plane_num == 1 && r.dib.depth == 24 && r.dib.compression == 0,
            r.dib.data_size == height * row_size(width as int),
            r.dib.horizental_resolution == 1000 && r.dib.vertical_resolution == 1000,
            r.dib.palette_color_num == 0 && r.dib.importance_color == 0,
            r.data.bytes@ == bmp_rows(data@, width as int, height as int, height as int),
    {
        BMP {
            header: Header::new(width, height),
            dib: DIB::new(width, height),
            data: Data::new(width, height, data),
        }
    }
}

impl Serializable for BMP {
    fn get_bytes(&self) -> (r: Vec<u8>)
        ensures
            r@ == self.header.spec_bytes() + self.dib.spec_bytes() + self.data.bytes@,
    {
        let mut bytes = self.header.get_bytes();
        let mut dib = self.dib.get_bytes();
        bytes.append(&mut dib);
        extend(&mut bytes, self.data.bytes.as_slice());
        bytes
    }
}

} // verus!

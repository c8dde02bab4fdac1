use vstd::arithmetic::div_mod::*;
use vstd::prelude::*;

use super::common::{bytes_bits, lemma_bytes_bits_len, lemma_bytes_bits_push, ones, Bits};
use super::huffman::{
    CHROMINANCE_AC_COUNT, CHROMINANCE_AC_VALUES, CHROMINANCE_DC_COUNT, CHROMINANCE_DC_VALUES,
    LUMINANCE_AC_COUNT, LUMINANCE_AC_VALUES, LUMINANCE_DC_COUNT, LUMINANCE_DC_VALUES,
};
use super::quant::{quant_table, scaled_entry};
use super::rle::{block_bits, encode, opt_cat, EncodeError};
use crate::bytes::{be16, extend, push_be16};
use crate::Serializable;

verus! {

/// The kind of colour plane a block belongs to; it selects the quantization and Huffman tables.
#[derive(Debug, PartialEq, Eq, Clone, Copy, Structural)]
pub enum Mode {
    Luminance,
    Chromiance,
}

pub open spec fn min(a: int, b: int) -> int {
    if a < b {
        a
    } else {
        b
    }
}

/// Y of an RGB sample: `0.299 R + 0.587 G + 0.114 B`, rounded half up.
pub open spec fn luma(r: int, g: int, b: int) -> int {
    (2990 * r + 5870 * g + 1140 * b + 5000) / 10000
}

/// Cb of an RGB sample: `-0.1687 R - 0.3313 G + 0.5 B + 128`, rounded half up, at most 255.
pub open spec fn blue_chroma(r: int, g: int, b: int) -> int {
    min(255, (5000 * b - 1687 * r - 3313 * g + 1285000) / 10000)
}

/// Cr of an RGB sample: `0.5 R - 0.4187 G - 0.0813 B + 128`, rounded half up, at most 255.
pub open spec fn red_chroma(r: int, g: int, b: int) -> int {
    min(255, (5000 * r - 4187 * g - 813 * b + 1285000) / 10000)
}

/// Converts an RGB sample to YCbCr.
pub fn rgb_2_ycbcr(r: u8, g: u8, b: u8) -> (ycc: (u8, u8, u8))
    ensures
        ycc.0 == luma(r as int, g as int, b as int),
        ycc.1 == blue_chroma(r as int, g as int, b as int),
        ycc.2 == red_chroma(r as int, g as int, b as int),
{
    let (r, g, b) = (r as u32, g as u32, b as u32);
    let y = (2990 * r + 5870 * g + 1140 * b + 5000) / 10000;
    let cb = (5000 * b + 1285000 - 1687 * r - 3313 * g) / 10000;
    let cr = (5000 * r + 1285000 - 4187 * g - 813 * b) / 10000;
    let cb = if cb > 255 { 255 } else { cb };
    let cr = if cr > 255 { 255 } else { cr };
    (y as u8, cb as u8, cr as u8)
}

/// Bytes per pixel of the image data: one gray level, or RGBA for a colour image.
pub open spec fn channels(component: u8) -> int {
    if component == 1 {
        1
    } else {
        4
    }
}

/// The image behind the scan: `component` is 1 for grayscale (one byte per pixel) and 3 for
/// colour (RGBA, four bytes per pixel, alpha unused); pixels row by row from the top left.
pub struct SOS {
    pub width: u16,
    pub height: u16,
    pub component: u8,
    pub data: Vec<u8>,
}

proof fn lemma_index_bound(x: int, y: int, w: int, h: int, c: int)
    requires
        0 <= x < w,
        0 <= y < h,
        1 <= c,
    ensures
        0 <= y * w,
        y * w + x < w * h,
        0 <= (y * w + x) * c,
        (y * w + x) * c + c <= w * h * c,
{
    assert(y * w + x < w * h) by (nonlinear_arith)
        requires
            0 <= x < w,
            0 <= y < h,
    ;
    assert(0 <= y * w) by (nonlinear_arith)
        requires
            0 <= x < w,
            0 <= y < h,
    ;
    assert((y * w + x) * c + c <= w * h * c) by (nonlinear_arith)
        requires
            y * w + x < w * h,
            1 <= c,
    ;
    assert(0 <= (y * w + x) * c) by (nonlinear_arith)
        requires
            0 <= y * w + x,
            1 <= c,
    ;
}

/// The value at (`x`, `y`) of a 16×16 region held as four 8×8 blocks (top left, top right,
/// bottom left, bottom right).
pub open spec fn at16(blocks: [[i32; 64]; 4], x: int, y: int) -> int {
    blocks[2 * (y / 8) + x / 8][8 * (y % 8) + x % 8] as int
}

/// The mean of the 2×2 square at (2`x`, 2`y`) of a 16×16 region, rounded half up.
pub open spec fn average4(blocks: [[i32; 64]; 4], x: int, y: int) -> int {
    (at16(blocks, 2 * x, 2 * y) + at16(blocks, 2 * x + 1, 2 * y) + at16(blocks, 2 * x, 2 * y + 1)
        + at16(blocks, 2 * x + 1, 2 * y + 1) + 2) / 4
}

/// Halves a 16×16 region in both directions: each sample is the rounded mean of a 2×2 square.
pub fn subsampling(data: [[i32; 64]; 4]) -> (result: [i32; 64])
    requires
        forall|q: int, i: int| 0 <= q < 4 && 0 <= i < 64 ==> 0 <= #[trigger] data[q][i] <= 255,
    ensures
        forall|i: int| 0 <= i < 64 ==> #[trigger] result[i] == average4(data, i % 8, i / 8),
{
    let mut result = [0i32; 64];
    let mut k: usize = 0;
    while k < 64
        invariant
            k <= 64,
            forall|q: int, i: int| 0 <= q < 4 && 0 <= i < 64 ==> 0 <= #[trigger] data[q][i] <= 255,
            forall|i: int| 0 <= i < k ==> #[trigger] result[i] == average4(data, i % 8, i / 8),
        decreases 64 - k,
    {
        let y = k / 8;
        let x = k % 8;
        let q = 2 * (y / 4) + x / 4;
        let base = 16 * (y % 4) + 2 * (x % 4);
        let block = data[q];
        result[k] = (block[base] + block[base + 1] + block[base + 8] + block[base + 9] + 2) / 4;
        proof {
            let (xi, yi) = (x as int, y as int);
            assert(2 * ((2 * yi) / 8) + (2 * xi) / 8 == q);
            assert(2 * ((2 * yi + 1) / 8) + (2 * xi + 1) / 8 == q);
            assert(8 * ((2 * yi) % 8) + (2 * xi) % 8 == base);
            assert(8 * ((2 * yi) % 8) + (2 * xi + 1) % 8 == base + 1);
            assert(8 * ((2 * yi + 1) % 8) + (2 * xi) % 8 == base + 8);
            assert(8 * ((2 * yi + 1) % 8) + (2 * xi + 1) % 8 == base + 9);
        }
        k = k + 1;
    }
    result
}

proof fn lemma_clamp_twice(a: int, c: int, m: int)
    requires
        0 <= c,
    ensures
        min(min(a, m) + c, m) == min(a + c, m),
{
}

/// How many tiles of `size` cover `n`.
pub open spec fn tiles(n: int, size: int) -> int {
    (n + size - 1) / size
}

proof fn lemma_tile_index(k: int, across: int, bx: int, by: int)
    requires
        across > 0,
        0 <= bx < across,
        0 <= by,
        k == by * across + bx,
    ensures
        k % across == bx,
        k / across == by,
{
    lemma_fundamental_div_mod_converse(k, across, by, bx);
}

proof fn lemma_tiles_end(n: int, size: int, t: int)
    requires
        size > 0,
        n > 0,
        size * t >= n,
        size * (t - 1) < n,
    ensures
        tiles(n, size) == t,
{
    assert(size * (t - 1) == size * t - size) by (nonlinear_arith);
    assert(t * size == size * t) by (nonlinear_arith);
    lemma_fundamental_div_mod_converse(n + size - 1, size, t, n + size - 1 - size * t);
}

proof fn lemma_tile_below(n: int, size: int, b: int)
    requires
        size > 0,
        0 <= b,
        size * b < n,
    ensures
        b < tiles(n, size),
{
    lemma_div_is_ordered(size * b + size, n + size - 1, size);
    assert((size * b + size) / size == b + 1) by {
        assert(size * b + size == (b + 1) * size) by (nonlinear_arith);
        lemma_div_multiples_vanish(b + 1, size);
    }
}

impl SOS {
    pub open spec fn wf(&self) -> bool {
        &&& self.width >= 1
        &&& self.height >= 1
        &&& self.component == 1 || self.component == 3
        &&& self.data@.len() == self.width * self.height * channels(self.component)
    }

    /// Where the pixel at (`x`, `y`) is read from, positions past the right or bottom edge
    /// taking the last column or row.
    pub open spec fn pixel(&self, x: int, y: int) -> int {
        min(y, self.height - 1) * self.width + min(x, self.width - 1)
    }

    /// The gray level at (`x`, `y`), edges repeated.
    pub open spec fn gray_at(&self, x: int, y: int) -> int {
        self.data@[self.pixel(x, y)] as int
    }

    /// The (Y, Cb, Cr) sample at (`x`, `y`), edges repeated.
    pub open spec fn ycbcr_at(&self, x: int, y: int) -> (int, int, int) {
        let p = 4 * self.pixel(x, y);
        let (r, g, b) = (
            self.data@[p] as int,
            self.data@[p + 1] as int,
            self.data@[p + 2] as int,
        );
        (luma(r, g, b), blue_chroma(r, g, b), red_chroma(r, g, b))
    }

    /// How many blocks the scan holds: one per 8×8 tile for grayscale; for colour, six per
    /// 16×16 unit (four Y, one Cb, one Cr).
    pub open spec fn block_count(&self) -> int {
        if self.component == 1 {
            tiles(self.width as int, 8) * tiles(self.height as int, 8)
        } else {
            6 * (tiles(self.width as int, 16) * tiles(self.height as int, 16))
        }
    }

    /// Sample `i` (row by row) of block `k` of the scan. Grayscale tiles go left to right,
    /// top to bottom. Colour units go in the same order, each giving its four Y blocks (top
    /// left, top right, bottom left, bottom right), then Cb and Cr halved in both directions.
    pub open spec fn block_sample(&self, k: int, i: int) -> int {
        let (x, y) = (i % 8, i / 8);
        if self.component == 1 {
            let across = tiles(self.width as int, 8);
            self.gray_at(8 * (k % across) + x, 8 * (k / across) + y)
        } else {
            let across = tiles(self.width as int, 16);
            let unit = k / 6;
            self.unit_sample(16 * (unit % across), 16 * (unit / across), k % 6, i)
        }
    }

    /// Sample `i` of block `part` of the colour unit whose top left pixel is (`ox`, `oy`).
    pub open spec fn unit_sample(&self, ox: int, oy: int, part: int, i: int) -> int {
        let (x, y) = (i % 8, i / 8);
        if part < 4 {
            self.ycbcr_at(ox + 8 * (part % 2) + x, oy + 8 * (part / 2) + y).0
        } else if part == 4 {
            (self.ycbcr_at(ox + 2 * x, oy + 2 * y).1 + self.ycbcr_at(ox + 2 * x + 1, oy + 2 * y).1
                + self.ycbcr_at(ox + 2 * x, oy + 2 * y + 1).1 + self.ycbcr_at(
                ox + 2 * x + 1,
                oy + 2 * y + 1,
            ).1 + 2) / 4
        } else {
            (self.ycbcr_at(ox + 2 * x, oy + 2 * y).2 + self.ycbcr_at(ox + 2 * x + 1, oy + 2 * y).2
                + self.ycbcr_at(ox + 2 * x, oy + 2 * y + 1).2 + self.ycbcr_at(
                ox + 2 * x + 1,
                oy + 2 * y + 1,
            ).2 + 2) / 4
        }
    }

    pub fn new(width: u16, height: u16, component: u8, data: &Vec<u8>) -> (r: SOS)
        ensures
            r.width == width,
            r.height == height,
            r.component == component,
            r.data@ == data@,
    {
        SOS { width, height, component, data: data.clone() }
    }

    /// The 8×8 gray block whose top left pixel is (`start_x`, `start_y`), row by row; pixels
    /// past the edges repeat the last column or row.
    pub fn get_gray_block(&self, start_x: usize, start_y: usize) -> (block: [i32; 64])
        requires
            self.wf(),
            self.component == 1,
            start_x <= 0x20000,
            start_y <= 0x20000,
        ensures
            forall|i: int|
                0 <= i < 64 ==> #[trigger] block[i] == self.gray_at(
                    start_x + i % 8,
                    start_y + i / 8,
                ),
    {
        let mut block = [0i32; 64];
        let len = self.data.len();
        let w = self.width as usize;
        let h = self.height as usize;
        let mut row: usize = 0;
        while row < 8
            invariant
                self.wf(),
                self.component == 1,
                w == self.width,
                h == self.height,
                len == self.data@.len(),
                start_x <= 0x20000,
                start_y <= 0x20000,
                row <= 8,
                forall|i: int|
                    0 <= i < row * 8 ==> #[trigger] block[i] == self.gray_at(
                        start_x + i % 8,
                        start_y + i / 8,
                    ),
            decreases 8 - row,
        {
            let mut col: usize = 0;
            while col < 8
                invariant
                    self.wf(),
                    self.component == 1,
                    w == self.width,
                    h == self.height,
                    len == self.data@.len(),
                    start_x <= 0x20000,
                    start_y <= 0x20000,
                    row < 8,
                    col <= 8,
                    forall|i: int|
                        0 <= i < row * 8 + col ==> #[trigger] block[i] == self.gray_at(
                            start_x + i % 8,
                            start_y + i / 8,
                        ),
                decreases 8 - col,
            {
                let oy = if start_y + row < h - 1 { start_y + row } else { h - 1 };
                let ox = if start_x + col < w - 1 { start_x + col } else { w - 1 };
                proof {
                    lemma_index_bound(ox as int, oy as int, w as int, h as int, 1);
                }
                let v = self.data[oy * w + ox];
                block[row * 8 + col] = v as i32;
                proof {
                    let k = (row * 8 + col) as int;
                    assert(k % 8 == col as int && k / 8 == row as int);
                }
                col = col + 1;
            }
            row = row + 1;
        }
        block
    }

    /// The Y, Cb and Cr blocks of the 8×8 colour block whose top left pixel is
    /// (`start_x`, `start_y`), edges repeated as for gray blocks.
    #[verifier::rlimit(40)]
    pub fn get_ycbcr_block(&self, start_x: usize, start_y: usize) -> (blocks: (
        [i32; 64],
        [i32; 64],
        [i32; 64],
    ))
        requires
            self.wf(),
            self.component == 3,
            start_x <= 0x20000,
            start_y <= 0x20000,
        ensures
            forall|i: int|
                0 <= i < 64 ==> #[trigger] blocks.0[i] == self.ycbcr_at(
                    start_x + i % 8,
                    start_y + i / 8,
                ).0,
            forall|i: int|
                0 <= i < 64 ==> #[trigger] blocks.1[i] == self.ycbcr_at(
                    start_x + i % 8,
                    start_y + i / 8,
                ).1,
            forall|i: int|
                0 <= i < 64 ==> #[trigger] blocks.2[i] == self.ycbcr_at(
                    start_x + i % 8,
                    start_y + i / 8,
                ).2,
    {
        let mut yb = [0i32; 64];
        let mut cbb = [0i32; 64];
        let mut crb = [0i32; 64];
        let len = self.data.len();
        let w = self.width as usize;
        let h = self.height as usize;
        let mut k: usize = 0;
        while k < 64
            invariant
                self.wf(),
                self.component == 3,
                w == self.width,
                h == self.height,
                len == self.data@.len(),
                start_x <= 0x20000,
                start_y <= 0x20000,
                k <= 64,
                forall|i: int|
                    0 <= i < k ==> #[trigger] yb[i] == self.ycbcr_at(
                        start_x + i % 8,
                        start_y + i / 8,
                    ).0,
                forall|i: int|
                    0 <= i < k ==> #[trigger] cbb[i] == self.ycbcr_at(
                        start_x + i % 8,
                        start_y + i / 8,
                    ).1,
                forall|i: int|
                    0 <= i < k ==> #[trigger] crb[i] == self.ycbcr_at(
                        start_x + i % 8,
                        start_y + i / 8,
                    ).2,
            decreases 64 - k,
        {
            let row = k / 8;
            let col = k % 8;
            let oy = if start_y + row < h - 1 { start_y + row } else { h - 1 };
            let ox = if start_x + col < w - 1 { start_x + col } else { w - 1 };
            proof {
                lemma_index_bound(ox as int, oy as int, w as int, h as int, 4);
            }
            let offset = (oy * w + ox) * 4;
            let (y, cb, cr) = rgb_2_ycbcr(
                self.data[offset],
                self.data[offset + 1],
                self.data[offset + 2],
            );
            yb[k] = y as i32;
            cbb[k] = cb as i32;
            crb[k] = cr as i32;
            proof {
                let ki = k as int;
                assert(offset == 4 * self.pixel(start_x + ki % 8, start_y + ki / 8));
                let s = self.ycbcr_at(start_x + ki % 8, start_y + ki / 8);
                assert(yb[ki] == s.0 && cbb[ki] == s.1 && crb[ki] == s.2);
                assert(0 <= s.1 <= 255 && 0 <= s.2 <= 255);
            }
            k = k + 1;
        }
        (yb, cbb, crb)
    }

    /// The blocks of the scan in the order they are encoded; see `block_sample`.
    pub fn blocks(&self) -> (r: Vec<[i32; 64]>)
        requires
            self.wf(),
        ensures
            r@.len() == self.block_count(),
            forall|k: int, i: int|
                0 <= k < r@.len() && 0 <= i < 64 ==> #[trigger] r@[k][i] == self.block_sample(k, i),
    {
        if self.component == 1 {
            self.gray_blocks()
        } else {
            self.ycbcr_blocks()
        }
    }

    fn gray_blocks(&self) -> (r: Vec<[i32; 64]>)
        requires
            self.wf(),
            self.component == 1,
        ensures
            r@.len() == self.block_count(),
            forall|k: int, i: int|
                0 <= k < r@.len() && 0 <= i < 64 ==> #[trigger] r@[k][i] == self.block_sample(k, i),
    {
        let mut r: Vec<[i32; 64]> = Vec::new();
        let w = self.width as usize;
        let h = self.height as usize;
        let across = (w + 7) / 8;
        let ghost mut by: int = 0;
        let mut start_y: usize = 0;
        while start_y < h
            invariant
                self.wf(),
                self.component == 1,
                w == self.width,
                h == self.height,
                across == tiles(w as int, 8),
                start_y == 8 * by,
                0 <= by,
                start_y <= h + 7,
                8 * (by - 1) < h,
                r@.len() == by * across,
                forall|k: int, i: int|
                    0 <= k < r@.len() && 0 <= i < 64 ==> #[trigger] r@[k][i] == self.block_sample(
                        k,
                        i,
                    ),
            decreases h + 8 - start_y,
        {
            let ghost mut bx: int = 0;
            let mut start_x: usize = 0;
            while start_x < w
                invariant
                    self.wf(),
                    self.component == 1,
                    w == self.width,
                    h == self.height,
                    across == tiles(w as int, 8),
                    start_y == 8 * by,
                    0 <= by,
                    start_y < h,
                    start_x == 8 * bx,
                    0 <= bx,
                    8 * (bx - 1) < w,
                    start_x <= w + 7,
                    r@.len() == by * across + bx,
                    forall|k: int, i: int|
                        0 <= k < r@.len() && 0 <= i < 64 ==> #[trigger] r@[k][i]
                            == self.block_sample(k, i),
                decreases w + 8 - start_x,
            {
                proof {
                    lemma_tile_below(w as int, 8, bx);
                }
                let block = self.get_gray_block(start_x, start_y);
                let ghost k = r@.len() as int;
                r.push(block);
                proof {
                    lemma_tile_index(k, across as int, bx, by);
                    assert forall|i: int| 0 <= i < 64 implies #[trigger] r@[k][i] == self.block_sample(
                        k,
                        i,
                    ) by {
                        assert(block[i] == self.gray_at(start_x + i % 8, start_y + i / 8));
                    }
                    bx = bx + 1;
                }
                start_x = start_x + 8;
            }
            proof {
                lemma_tiles_end(w as int, 8, bx);
                assert(r@.len() == (by + 1) * across) by (nonlinear_arith)
                    requires
                        r@.len() == by * across + bx,
                        bx == across,
                ;
                by = by + 1;
            }
            start_y = start_y + 8;
        }
        proof {
            lemma_tiles_end(h as int, 8, by);
            assert(r@.len() == across * tiles(h as int, 8)) by (nonlinear_arith)
                requires
                    r@.len() == by * across,
                    by == tiles(h as int, 8),
            ;
        }
        r
    }

    fn ycbcr_blocks(&self) -> (r: Vec<[i32; 64]>)
        requires
            self.wf(),
            self.component == 3,
        ensures
            r@.len() == self.block_count(),
            forall|k: int, i: int|
                0 <= k < r@.len() && 0 <= i < 64 ==> #[trigger] r@[k][i] == self.block_sample(k, i),
    {
        let mut r: Vec<[i32; 64]> = Vec::new();
        let w = self.width as usize;
        let h = self.height as usize;
        let across = (w + 15) / 16;
        let ghost mut by: int = 0;
        let mut start_y: usize = 0;
        while start_y < h
            invariant
                self.wf(),
                self.component == 3,
                w == self.width,
                h == self.height,
                across == tiles(w as int, 16),
                start_y == 16 * by,
                0 <= by,
                start_y <= h + 15,
                16 * (by - 1) < h,
                r@.len() == 6 * (by * across),
                forall|k: int, i: int|
                    0 <= k < r@.len() && 0 <= i < 64 ==> #[trigger] r@[k][i] == self.block_sample(
                        k,
                        i,
                    ),
            decreases h + 16 - start_y,
        {
            let ghost mut bx: int = 0;
            let mut start_x: usize = 0;
            while start_x < w
                invariant
                    self.wf(),
                    self.component == 3,
                    w == self.width,
                    h == self.height,
                    across == tiles(w as int, 16),
                    start_y == 16 * by,
                    0 <= by,
                    start_y < h,
                    start_x == 16 * bx,
                    0 <= bx,
                    16 * (bx - 1) < w,
                    start_x <= w + 15,
                    r@.len() == 6 * (by * across + bx),
                    forall|k: int, i: int|
                        0 <= k < r@.len() && 0 <= i < 64 ==> #[trigger] r@[k][i]
                            == self.block_sample(k, i),
                decreases w + 16 - start_x,
            {
                proof {
                    lemma_tile_below(w as int, 16, bx);
                }
                let ghost unit = by * across + bx;
                let ghost base = r@.len() as int;
                self.push_unit(&mut r, start_x, start_y);
                proof {
                    lemma_tile_index(unit, across as int, bx, by);
                    assert forall|k: int, i: int|
                        base <= k < base + 6 && 0 <= i < 64 implies #[trigger] r@[k][i]
                        == self.block_sample(k, i) by {
                        lemma_fundamental_div_mod_converse(k, 6, unit, k - base);
                        let part = k - base;
                        assert(r@[base + part][i] == self.unit_sample(
                            start_x as int,
                            start_y as int,
                            part,
                            i,
                        ));
                        assert(base + part == k);
                    }
                    assert(r@.len() == 6 * (by * across + bx + 1));
                    bx = bx + 1;
                }
                start_x = start_x + 16;
            }
            proof {
                lemma_tiles_end(w as int, 16, bx);
                assert(r@.len() == 6 * ((by + 1) * across)) by (nonlinear_arith)
                    requires
                        r@.len() == 6 * (by * across + bx),
                        bx == across,
                ;
                by = by + 1;
            }
            start_y = start_y + 16;
        }
        proof {
            lemma_tiles_end(h as int, 16, by);
            assert(r@.len() == 6 * (across * tiles(h as int, 16))) by (nonlinear_arith)
                requires
                    r@.len() == 6 * (by * across),
                    by == tiles(h as int, 16),
            ;
        }
        r
    }

    /// Appends the six blocks of the colour unit whose top left pixel is
    /// (`start_x`, `start_y`).
    fn push_unit(&self, r: &mut Vec<[i32; 64]>, start_x: usize, start_y: usize)
        requires
            self.wf(),
            self.component == 3,
            start_x <= 0x10000,
            start_y <= 0x10000,
        ensures
            final(r)@.len() == old(r)@.len() + 6,
            forall|k: int| 0 <= k < old(r)@.len() ==> #[trigger] final(r)@[k] == old(r)@[k],
            forall|part: int, i: int|
                0 <= part < 6 && 0 <= i < 64 ==> #[trigger] final(r)@[old(r)@.len() + part][i]
                    == self.unit_sample(start_x as int, start_y as int, part, i),
    {
        let (y_blocks, cb_blocks, cr_blocks) = self.convert_rgb_blocks_to_ycbcr_blocks(
            start_x,
            start_y,
        );
        let cb = subsampling(cb_blocks);
        let cr = subsampling(cr_blocks);
        r.push(y_blocks[0]);
        r.push(y_blocks[1]);
        r.push(y_blocks[2]);
        r.push(y_blocks[3]);
        r.push(cb);
        r.push(cr);
        proof {
            let base = old(r)@.len() as int;
            assert forall|part: int, i: int| 0 <= part < 6 && 0 <= i < 64 implies #[trigger] r@[base
                + part][i] == self.unit_sample(start_x as int, start_y as int, part, i) by {
                let (x, y) = (i % 8, i / 8);
                if part < 4 {
                    assert(r@[base + part] == y_blocks[part]);
                } else {
                    let d = if part == 4 {
                        cb_blocks
                    } else {
                        cr_blocks
                    };
                    assert forall|xx: int, yy: int| 0 <= xx < 16 && 0 <= yy < 16 implies #[trigger] at16(
                        d,
                        xx,
                        yy,
                    ) == if part == 4 {
                        self.ycbcr_at(start_x + xx, start_y + yy).1
                    } else {
                        self.ycbcr_at(start_x + xx, start_y + yy).2
                    } by {
                        let q = 2 * (yy / 8) + xx / 8;
                        let j = 8 * (yy % 8) + xx % 8;
                        assert(q % 2 == xx / 8 && q / 2 == yy / 8);
                        assert(j % 8 == xx % 8 && j / 8 == yy % 8);
                        if part == 4 {
                            assert(cb_blocks[q][j] == self.ycbcr_at(
                                start_x + 8 * (q % 2) + j % 8,
                                start_y + 8 * (q / 2) + j / 8,
                            ).1);
                        } else {
                            assert(cr_blocks[q][j] == self.ycbcr_at(
                                start_x + 8 * (q % 2) + j % 8,
                                start_y + 8 * (q / 2) + j / 8,
                            ).2);
                        }
                    }
                    assert(r@[base + part][i] == average4(d, x, y));
                    assert(0 <= 2 * x + 1 < 16 && 0 <= 2 * y + 1 < 16);
                    assert(at16(d, 2 * x, 2 * y) == if part == 4 {
                        self.ycbcr_at(start_x + 2 * x, start_y + 2 * y).1
                    } else {
                        self.ycbcr_at(start_x + 2 * x, start_y + 2 * y).2
                    });
                    assert(at16(d, 2 * x + 1, 2 * y) == if part == 4 {
                        self.ycbcr_at(start_x + 2 * x + 1, start_y + 2 * y).1
                    } else {
                        self.ycbcr_at(start_x + 2 * x + 1, start_y + 2 * y).2
                    });
                    assert(at16(d, 2 * x, 2 * y + 1) == if part == 4 {
                        self.ycbcr_at(start_x + 2 * x, start_y + 2 * y + 1).1
                    } else {
                        self.ycbcr_at(start_x + 2 * x, start_y + 2 * y + 1).2
                    });
                    assert(at16(d, 2 * x + 1, 2 * y + 1) == if part == 4 {
                        self.ycbcr_at(start_x + 2 * x + 1, start_y + 2 * y + 1).1
                    } else {
                        self.ycbcr_at(start_x + 2 * x + 1, start_y + 2 * y + 1).2
                    });
                }
            }
        }
    }

    /// The Y, Cb and Cr samples of the 16×16 region whose top left pixel is
    /// (`start_x`, `start_y`), each as four 8×8 blocks (top left, top right, bottom left,
    /// bottom right), edges repeated.
    pub fn convert_rgb_blocks_to_ycbcr_blocks(&self, start_x: usize, start_y: usize) -> (r: (
        [[i32; 64]; 4],
        [[i32; 64]; 4],
        [[i32; 64]; 4],
    ))
        requires
            self.wf(),
            self.component == 3,
            start_x <= 0x10000,
            start_y <= 0x10000,
        ensures
            forall|q: int, i: int|
                0 <= q < 4 && 0 <= i < 64 ==> #[trigger] r.0[q][i] == self.ycbcr_at(
                    start_x + 8 * (q % 2) + i % 8,
                    start_y + 8 * (q / 2) + i / 8,
                ).0,
            forall|q: int, i: int|
                0 <= q < 4 && 0 <= i < 64 ==> #[trigger] r.1[q][i] == self.ycbcr_at(
                    start_x + 8 * (q % 2) + i % 8,
                    start_y + 8 * (q / 2) + i / 8,
                ).1,
            forall|q: int, i: int|
                0 <= q < 4 && 0 <= i < 64 ==> #[trigger] r.2[q][i] == self.ycbcr_at(
                    start_x + 8 * (q % 2) + i % 8,
                    start_y + 8 * (q / 2) + i / 8,
                ).2,
            forall|q: int, i: int|
                0 <= q < 4 && 0 <= i < 64 ==> 0 <= #[trigger] r.1[q][i] <= 255 && 0 <= r.2[q][i]
                    <= 255,
    {
        let mut y_blocks = [[0i32; 64]; 4];
        let mut cb_blocks = [[0i32; 64]; 4];
        let mut cr_blocks = [[0i32; 64]; 4];
        let w = self.width as usize;
        let h = self.height as usize;
        let mut q: usize = 0;
        while q < 4
            invariant
                self.wf(),
                self.component == 3,
                w == self.width,
                h == self.height,
                start_x <= 0x10000,
                start_y <= 0x10000,
                q <= 4,
                forall|p: int, i: int|
                    0 <= p < q && 0 <= i < 64 ==> #[trigger] y_blocks[p][i] == self.ycbcr_at(
                        start_x + 8 * (p % 2) + i % 8,
                        start_y + 8 * (p / 2) + i / 8,
                    ).0,
                forall|p: int, i: int|
                    0 <= p < q && 0 <= i < 64 ==> #[trigger] cb_blocks[p][i] == self.ycbcr_at(
                        start_x + 8 * (p % 2) + i % 8,
                        start_y + 8 * (p / 2) + i / 8,
                    ).1,
                forall|p: int, i: int|
                    0 <= p < q && 0 <= i < 64 ==> #[trigger] cr_blocks[p][i] == self.ycbcr_at(
                        start_x + 8 * (p % 2) + i % 8,
                        start_y + 8 * (p / 2) + i / 8,
                    ).2,
            decreases 4 - q,
        {
            let y = start_y + 8 * (q / 2);
            let x = start_x + 8 * (q % 2);
            let block_start_y = if y < h - 1 { y } else { h - 1 };
            let block_start_x = if x < w - 1 { x } else { w - 1 };
            let (yb, cbb, crb) = self.get_ycbcr_block(block_start_x, block_start_y);
            y_blocks[q] = yb;
            cb_blocks[q] = cbb;
            cr_blocks[q] = crb;
            proof {
                assert forall|i: int| 0 <= i < 64 implies #[trigger] y_blocks[q as int][i]
                    == self.ycbcr_at(start_x + 8 * (q % 2) + i % 8, start_y + 8 * (q / 2) + i / 8).0
                    && cb_blocks[q as int][i] == self.ycbcr_at(
                    start_x + 8 * (q % 2) + i % 8,
                    start_y + 8 * (q / 2) + i / 8,
                ).1 && cr_blocks[q as int][i] == self.ycbcr_at(
                    start_x + 8 * (q % 2) + i % 8,
                    start_y + 8 * (q / 2) + i / 8,
                ).2 by {
                    lemma_clamp_twice(x as int, i % 8, w - 1);
                    lemma_clamp_twice(y as int, i / 8, h - 1);
                    assert(self.pixel(block_start_x + i % 8, block_start_y + i / 8) == self.pixel(
                        start_x + 8 * (q % 2) + i % 8,
                        start_y + 8 * (q / 2) + i / 8,
                    ));
                    assert(yb[i] == y_blocks[q as int][i]);
                    assert(cbb[i] == cb_blocks[q as int][i]);
                    assert(crb[i] == cr_blocks[q as int][i]);
                }
            }
            q = q + 1;
        }
        proof {
            assert forall|p: int, i: int| 0 <= p < 4 && 0 <= i < 64 implies 0 <= #[trigger] cb_blocks[p][i]
                <= 255 && 0 <= cr_blocks[p][i] <= 255 by {
                let s = self.ycbcr_at(start_x + 8 * (p % 2) + i % 8, start_y + 8 * (p / 2) + i / 8);
                assert(cb_blocks[p][i] == s.1);
                assert(cr_blocks[p][i] == s.2);
            }
        }
        (y_blocks, cb_blocks, cr_blocks)
    }
}

/// The plane of block `k` of a scan: 0 for Y, 1 for Cb, 2 for Cr.
pub open spec fn plane(component: u8, k: int) -> int {
    if component == 1 {
        0
    } else if k % 6 < 4 {
        0
    } else if k % 6 == 4 {
        1
    } else {
        2
    }
}

pub open spec fn plane_mode(p: int) -> Mode {
    if p == 0 {
        Mode::Luminance
    } else {
        Mode::Chromiance
    }
}

/// The DC value of the last block of plane `p` before block `k`, or 0 if there is none.
pub open spec fn prev_dc(blocks: Seq<[i32; 64]>, component: u8, k: int, p: int) -> int
    decreases k,
{
    if k <= 0 {
        0
    } else if plane(component, k - 1) == p {
        blocks[k - 1][0] as int
    } else {
        prev_dc(blocks, component, k - 1, p)
    }
}

/// The entropy-coded bits of the first `n` blocks, or `None` if one of them cannot be
/// encoded.
pub open spec fn scan_bits(blocks: Seq<[i32; 64]>, component: u8, n: int) -> Option<Seq<bool>>
    decreases n,
{
    if n <= 0 {
        Some(Seq::empty())
    } else {
        let k = n - 1;
        let p = plane(component, k);
        opt_cat(
            scan_bits(blocks, component, k),
            block_bits(plane_mode(p), blocks[k]@, prev_dc(blocks, component, k, p)),
        )
    }
}

/// A bit stream closed with one bits up to the next byte boundary.
pub open spec fn padded(s: Seq<bool>) -> Seq<bool> {
    s + ones(((8 - s.len() % 8) % 8) as nat)
}

/// Closing a stream with padding keeps its bits as a prefix, adds fewer than eight one bits,
/// ends on a byte boundary, and changes nothing when applied again: a stream already on a
/// boundary gets no final byte.
pub proof fn lemma_padding(s: Seq<bool>)
    ensures
        padded(s).len() % 8 == 0,
        padded(s).subrange(0, s.len() as int) == s,
        padded(s).len() - s.len() < 8,
        padded(padded(s)) == padded(s),
        s.len() % 8 == 0 ==> padded(s) == s,
{
    let t = padded(s);
    assert(t.subrange(0, s.len() as int) =~= s);
    assert(t.len() % 8 == 0);
    assert(padded(t) =~= t);
    if s.len() % 8 == 0 {
        assert(padded(s) =~= s);
    }
}

/// The bytes of a scan are its entropy-coded bits closed by padding: their first `s.len()`
/// bits are the stream exactly, the rest (fewer than eight) are ones, there is one byte per
/// started eight bits, and a stream on a byte boundary gets no extra byte.
pub proof fn lemma_scan_unpadded(scan: Seq<u8>, s: Seq<bool>)
    requires
        bytes_bits(scan) == padded(s),
    ensures
        bytes_bits(scan).subrange(0, s.len() as int) == s,
        forall|i: int| s.len() <= i < bytes_bits(scan).len() ==> #[trigger] bytes_bits(scan)[i],
        bytes_bits(scan).len() - s.len() < 8,
        scan.len() == (s.len() + 7) / 8,
        s.len() % 8 == 0 ==> bytes_bits(scan) == s,
{
    lemma_padding(s);
    lemma_bytes_bits_len(scan);
    assert forall|i: int| s.len() <= i < bytes_bits(scan).len() implies #[trigger] bytes_bits(scan)[i] by {
        assert(padded(s)[i] == ones(((8 - s.len() % 8) % 8) as nat)[i - s.len()]);
    }
}

/// A grayscale scan is one luminance plane: every block is coded with the luminance tables,
/// its DC difference taken from the block before it (from 0 for the first).
pub proof fn lemma_gray_scan(blocks: Seq<[i32; 64]>, n: int)
    requires
        n > 0,
    ensures
        scan_bits(blocks, 1, n) == opt_cat(
            scan_bits(blocks, 1, n - 1),
            block_bits(
                Mode::Luminance,
                blocks[n - 1]@,
                if n == 1 {
                    0
                } else {
                    blocks[n - 2][0] as int
                },
            ),
        ),
{
}

proof fn lemma_scan_none(blocks: Seq<[i32; 64]>, component: u8, a: int, b: int)
    requires
        0 <= a <= b,
        scan_bits(blocks, component, a) is None,
    ensures
        scan_bits(blocks, component, b) is None,
    decreases b - a,
{
    if a < b {
        lemma_scan_none(blocks, component, a, b - 1);
    }
}

proof fn lemma_prev_step(blocks: Seq<[i32; 64]>, component: u8, k: int, prev: [i32; 3], next: [i32; 3])
    requires
        0 <= k,
        forall|p: int| 0 <= p < 3 ==> #[trigger] prev[p] == prev_dc(blocks, component, k, p),
        forall|p: int|
            0 <= p < 3 ==> #[trigger] next[p] == if p == plane(component, k) {
                blocks[k][0]
            } else {
                prev[p]
            },
    ensures
        forall|p: int| 0 <= p < 3 ==> #[trigger] next[p] == prev_dc(blocks, component, k + 1, p),
{
}

proof fn lemma_scan_step(blocks: Seq<[i32; 64]>, component: u8, k: int, done: Seq<bool>, more: Seq<bool>)
    requires
        0 <= k,
        scan_bits(blocks, component, k) == Some(done),
        block_bits(
            plane_mode(plane(component, k)),
            blocks[k]@,
            prev_dc(blocks, component, k, plane(component, k)),
        ) == Some(more),
    ensures
        scan_bits(blocks, component, k + 1) == Some(done + more),
{
}

/// The plane (0 for Y, 1 for Cb, 2 for Cr) of block `k` of a scan.
pub fn block_plane(component: u8, k: usize) -> (p: usize)
    ensures
        p == plane(component, k as int),
{
    if component == 1 {
        0
    } else if k % 6 < 4 {
        0
    } else if k % 6 == 4 {
        1
    } else {
        2
    }
}

/// The table set that block `k` of a scan is quantized and encoded with.
pub fn block_mode(component: u8, k: usize) -> (mode: Mode)
    ensures
        mode == plane_mode(plane(component, k as int)),
{
    if block_plane(component, k) == 0 {
        Mode::Luminance
    } else {
        Mode::Chromiance
    }
}

/// The row-major position of each coefficient in zig-zag order, lowest frequency first.
pub const ZIG_ZAG_ORDER: [usize; 64] = [
    0, 1, 8, 16, 9, 2, 3, 10, 17, 24, 32, 25, 18, 11, 4, 5, 12, 19, 26, 33, 40, 48, 41, 34, 27, 20,
    13, 6, 7, 14, 21, 28, 35, 42, 49, 56, 57, 50, 43, 36, 29, 22, 15, 23, 30, 37, 44, 51, 58, 59,
    52, 45, 38, 31, 39, 46, 53, 60, 61, 54, 47, 55, 62, 63,
];

/// Encodes the quantized blocks of a scan (each in zig-zag order; planes and order as
/// `SOS::blocks` gives them) into the padded entropy-coded byte stream.
#[verifier::rlimit(40)]
pub fn encode_scan(component: u8, blocks: &Vec<[i32; 64]>) -> (r: Result<Vec<u8>, EncodeError>)
    ensures
        r is Ok == scan_bits(blocks@, component, blocks@.len() as int) is Some,
        r matches Ok(bytes) ==> bytes_bits(bytes@) == padded(
            scan_bits(blocks@, component, blocks@.len() as int).unwrap(),
        ),
{
    let mut out: Vec<u8> = Vec::new();
    let mut bits = Bits::new(0, 0);
    let mut prev: [i32; 3] = [0; 3];
    let n = blocks.len();
    let mut k: usize = 0;
    proof {
        assert(bytes_bits(out@) + bits@ =~= Seq::<bool>::empty());
    }
    while k < n
        invariant
            k <= n,
            n == blocks@.len(),
            bits.wf(),
            bits.length < 8,
            scan_bits(blocks@, component, k as int) is Some,
            bytes_bits(out@) + bits@ == scan_bits(blocks@, component, k as int).unwrap(),
            forall|p: int| 0 <= p < 3 ==> #[trigger] prev[p] == prev_dc(blocks@, component, k as int, p),
        decreases n - k,
    {
        let p = block_plane(component, k);
        let mode = if p == 0 {
            Mode::Luminance
        } else {
            Mode::Chromiance
        };
        let block = blocks[k];
        let ghost before = bytes_bits(out@) + bits@;
        let ghost old_bits = bits;
        let slice = block.as_slice();
        assert(slice@ == block@);
        let mut bytes = match encode(slice, &mut bits, prev[p], mode) {
            Ok(b) => b,
            Err(e) => {
                proof {
                    lemma_scan_none(blocks@, component, k + 1, n as int);
                }
                return Err(e);
            },
        };
        let ghost new_bytes = bytes@;
        let ghost old_out = out@;
        let ghost old_prev = prev;
        out.append(&mut bytes);
        prev[p] = block[0];
        proof {
            let more = block_bits(mode, block@, prev_dc(blocks@, component, k as int, p as int)).unwrap();
            super::common::lemma_bytes_bits_append(old_out, new_bytes);
            assert(prev_dc(blocks@, component, k as int, p as int) == old_prev[p as int]);
            assert(bytes_bits(new_bytes) + bits@ == old_bits@ + more);
            assert(out@ == old_out + new_bytes);
            assert(bytes_bits(out@) + bits@ =~= bytes_bits(old_out) + (bytes_bits(new_bytes) + bits@));
            assert(bytes_bits(out@) + bits@ =~= before + more);
            lemma_scan_step(blocks@, component, k as int, before, more);
            lemma_prev_step(blocks@, component, k as int, old_prev, prev);
        }
        k = k + 1;
    }
    let (last_byte, is_complete) = bits.complete();
    proof {
        lemma_bytes_bits_len(out@);
    }
    if !is_complete {
        let ghost old_out = out@;
        out.push(last_byte);
        proof {
            lemma_bytes_bits_push(old_out, last_byte);
        }
    } else {
        proof {
            assert(bits@ =~= Seq::<bool>::empty());
        }
    }
    proof {
        let st = scan_bits(blocks@, component, n as int).unwrap();
        assert(bytes_bits(out@) =~= padded(st));
    }
    Ok(out)
}

/// A marker segment: 0xFF, the marker, the payload length plus two (high byte first), then
/// the payload.
pub open spec fn segment(marker: u8, payload: Seq<u8>) -> Seq<u8> {
    seq![0xffu8, marker] + be16(payload.len() + 2int) + payload
}

/// The scaled quantization table of a plane, row by row.
pub open spec fn table_bytes(mode: Mode) -> Seq<u8> {
    Seq::new(64, |i: int| scaled_entry(mode, i / 8, i % 8) as u8)
}

/// DQT: the luminance table as table 0, the chrominance table as table 1.
pub open spec fn dqt_payload() -> Seq<u8> {
    seq![0u8] + table_bytes(Mode::Luminance) + seq![1u8] + table_bytes(Mode::Chromiance)
}

/// SOF0: 8-bit samples, height, width, and the components with their sampling factors
/// (1×1 for grayscale; 2×2 luminance and 1×1 chrominance for colour).
pub open spec fn sof0_payload(width: u16, height: u16, component: u8) -> Seq<u8> {
    seq![8u8] + be16(height as int) + be16(width as int) + seq![component] + if component == 1 {
        seq![0x01u8, 0x11, 0x00]
    } else {
        seq![0x01u8, 0x22, 0x00, 0x02, 0x11, 0x01, 0x03, 0x11, 0x01]
    }
}

/// DHT: each table behind its class/index byte; the chrominance tables only for colour.
pub open spec fn dht_payload(component: u8) -> Seq<u8> {
    let luminance = seq![0x00u8] + LUMINANCE_DC_COUNT@ + LUMINANCE_DC_VALUES@ + seq![0x10u8]
        + LUMINANCE_AC_COUNT@ + LUMINANCE_AC_VALUES@;
    if component == 1 {
        luminance
    } else {
        luminance + seq![0x01u8] + CHROMINANCE_DC_COUNT@ + CHROMINANCE_DC_VALUES@ + seq![0x11u8]
            + CHROMINANCE_AC_COUNT@ + CHROMINANCE_AC_VALUES@
    }
}

/// SOS header: component selectors with their table choices and the fixed spectral
/// selection of a baseline scan.
pub open spec fn sos_header(component: u8) -> Seq<u8> {
    if component == 1 {
        seq![0x01u8, 0x01, 0x00, 0x00, 0x3f, 0x00]
    } else {
        seq![0x03u8, 0x01, 0x00, 0x02, 0x11, 0x03, 0x11, 0x00, 0x3f, 0x00]
    }
}

/// The whole file: SOI, DQT, SOF0, DHT, SOS with the entropy-coded `scan` after its header
/// (the segment's length covers the header only), EOI.
pub open spec fn jpeg_file(width: u16, height: u16, component: u8, scan: Seq<u8>) -> Seq<u8> {
    seq![0xffu8, 0xd8] + segment(0xdb, dqt_payload()) + segment(
        0xc0,
        sof0_payload(width, height, component),
    ) + segment(0xc4, dht_payload(component)) + segment(0xda, sos_header(component)) + scan
        + seq![0xffu8, 0xd9]
}

fn push_segment(out: &mut Vec<u8>, marker: u8, payload: &Vec<u8>)
    requires
        payload@.len() + 2 <= 0xffff,
    ensures
        final(out)@ == old(out)@ + segment(marker, payload@),
{
    out.push(0xff);
    out.push(marker);
    push_be16(out, (payload.len() + 2) as u16);
    extend(out, payload.as_slice());
    proof {
        assert(final(out)@ =~= old(out)@ + segment(marker, payload@));
    }
}

fn push_table(out: &mut Vec<u8>, mode: Mode)
    ensures
        final(out)@ == old(out)@ + table_bytes(mode),
{
    let table = quant_table(mode);
    let mut i: usize = 0;
    while i < 64
        invariant
            i <= 64,
            forall|y: int, x: int|
                0 <= y < 8 && 0 <= x < 8 ==> #[trigger] table[y][x] == scaled_entry(mode, y, x),
            out@ == old(out)@ + table_bytes(mode).subrange(0, i as int),
        decreases 64 - i,
    {
        out.push(table[i / 8][i % 8]);
        i = i + 1;
        proof {
            assert(out@ =~= old(out)@ + table_bytes(mode).subrange(0, i as int));
        }
    }
    proof {
        assert(table_bytes(mode).subrange(0, 64) =~= table_bytes(mode));
    }
}

fn dqt_bytes() -> (r: Vec<u8>)
    ensures
        r@ == dqt_payload(),
{
    let mut bytes: Vec<u8> = Vec::new();
    bytes.push(0);
    push_table(&mut bytes, Mode::Luminance);
    bytes.push(1);
    push_table(&mut bytes, Mode::Chromiance);
    proof {
        assert(bytes@ =~= dqt_payload());
    }
    bytes
}

fn sof0_bytes(width: u16, height: u16, component: u8) -> (r: Vec<u8>)
    ensures
        r@ == sof0_payload(width, height, component),
{
    let mut bytes: Vec<u8> = Vec::new();
    bytes.push(8);
    push_be16(&mut bytes, height);
    push_be16(&mut bytes, width);
    bytes.push(component);
    if component == 1 {
        extend(&mut bytes, [0x01u8, 0x11, 0x00].as_slice());
    } else {
        extend(&mut bytes, [0x01u8, 0x22, 0x00, 0x02, 0x11, 0x01, 0x03, 0x11, 0x01].as_slice());
    }
    proof {
        assert(bytes@ =~= sof0_payload(width, height, component));
    }
    bytes
}

fn dht_bytes(component: u8) -> (r: Vec<u8>)
    ensures
        r@ == dht_payload(component),
{
    let mut bytes: Vec<u8> = Vec::new();
    bytes.push(0x00);
    extend(&mut bytes, LUMINANCE_DC_COUNT.as_slice());
    extend(&mut bytes, LUMINANCE_DC_VALUES.as_slice());
    bytes.push(0x10);
    extend(&mut bytes, LUMINANCE_AC_COUNT.as_slice());
    extend(&mut bytes, LUMINANCE_AC_VALUES.as_slice());
    let ghost luminance = bytes@;
    if component != 1 {
        bytes.push(0x01);
        extend(&mut bytes, CHROMINANCE_DC_COUNT.as_slice());
        extend(&mut bytes, CHROMINANCE_DC_VALUES.as_slice());
        bytes.push(0x11);
        extend(&mut bytes, CHROMINANCE_AC_COUNT.as_slice());
        extend(&mut bytes, CHROMINANCE_AC_VALUES.as_slice());
    }
    proof {
        assert(luminance =~= seq![0x00u8] + LUMINANCE_DC_COUNT@ + LUMINANCE_DC_VALUES@ + seq![0x10u8]
            + LUMINANCE_AC_COUNT@ + LUMINANCE_AC_VALUES@);
        assert(bytes@ =~= dht_payload(component));
    }
    bytes
}

fn sos_header_bytes(component: u8) -> (r: Vec<u8>)
    ensures
        r@ == sos_header(component),
{
    let mut bytes: Vec<u8> = Vec::new();
    if component == 1 {
        extend(&mut bytes, [0x01u8, 0x01, 0x00, 0x00, 0x3f, 0x00].as_slice());
    } else {
        extend(&mut bytes, [0x03u8, 0x01, 0x00, 0x02, 0x11, 0x03, 0x11, 0x00, 0x3f, 0x00].as_slice());
    }
    proof {
        assert(bytes@ =~= sos_header(component));
    }
    bytes
}

/// A baseline JPEG file: its frame and the entropy-coded scan, padded to a byte boundary.
pub struct JPEG {
    pub width: u16,
    pub height: u16,
    pub component: u8,
    pub scan: Vec<u8>,
}

impl JPEG {
    /// Encodes the scan of a `width`×`height` image from its quantized blocks (each in
    /// zig-zag order; planes and order as `SOS::blocks` gives them); `component` is 1 for
    /// grayscale and 3 for colour. Fails where a coefficient has no Huffman code.
    pub fn new(width: u16, height: u16, component: u8, blocks: &Vec<[i32; 64]>) -> (r: Result<
        JPEG,
        EncodeError,
    >)
        ensures
            r is Ok == scan_bits(blocks@, component, blocks@.len() as int) is Some,
            r matches Ok(j) ==> j.width == width && j.height == height && j.component == component
                && bytes_bits(j.scan@) == padded(
                scan_bits(blocks@, component, blocks@.len() as int).unwrap(),
            ),
    {
        let scan = encode_scan(component, blocks)?;
        Ok(JPEG { width, height, component, scan })
    }
}

impl Serializable for JPEG {
    fn get_bytes(&self) -> (r: Vec<u8>)
        ensures
            r@ == jpeg_file(self.width, self.height, self.component, self.scan@),
    {
        let mut bytes: Vec<u8> = Vec::new();
        bytes.push(0xff);
        bytes.push(0xd8);
        push_segment(&mut bytes, 0xdb, &dqt_bytes());
        push_segment(&mut bytes, 0xc0, &sof0_bytes(self.width, self.height, self.component));
        push_segment(&mut bytes, 0xc4, &dht_bytes(self.component));
        push_segment(&mut bytes, 0xda, &sos_header_bytes(self.component));
        extend(&mut bytes, self.scan.as_slice());
        bytes.push(0xff);
        bytes.push(0xd9);
        proof {
            assert(bytes@ =~= jpeg_file(self.width, self.height, self.component, self.scan@));
        }
        bytes
    }
}

} // verus!

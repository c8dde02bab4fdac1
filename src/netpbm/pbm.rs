use vstd::prelude::*;

use super::utils::{byte_to_char, packs, u8_to_bits};
use super::{push_size_header, size_header, Mode};
use crate::bytes::extend;
use crate::Serializable;

verus! {

/// A bitmap: one value per pixel, 1 for black and 0 for white. `data` holds what follows the
/// header: the characters '0' and '1' in plain mode, each row packed into bytes in raw mode.
pub struct PBM {
    pub mode: Mode,
    pub width: u32,
    pub height: u32,
    pub data: Vec<u8>,
}

/// `r` holds the `height` rows of `width` values of `bits`, each row packed into whole bytes.
pub open spec fn rows_packed(r: Seq<u8>, bits: Seq<u8>, width: int, height: int) -> bool {
    let rb = (width + 7) / 8;
    &&& r.len() == height * rb
    &&& forall|row: int|
        0 <= row < height ==> #[trigger] packs(
            r.subrange(row * rb, row * rb + rb),
            bits.subrange(row * width, row * width + width),
        )
}

/// Packs each row of a `width`×`height` bitmap into whole bytes.
pub fn compress_bits_to_u8_array(width: u32, height: u32, bits: &Vec<u8>) -> (r: Vec<u8>)
    requires
        bits@.len() == width * height,
        forall|i: int| 0 <= i < bits@.len() ==> #[trigger] bits@[i] <= 1,
    ensures
        rows_packed(r@, bits@, width as int, height as int),
{
    let ghost rb = (width as int + 7) / 8;
    let mut converted: Vec<u8> = Vec::new();
    let w = width as usize;
    let len = bits.len();
    let mut index: usize = 0;
    while index < height as usize
        invariant
            w == width,
            len == bits@.len(),
            bits@.len() == width * height,
            forall|i: int| 0 <= i < bits@.len() ==> #[trigger] bits@[i] <= 1,
            rb == (width as int + 7) / 8,
            index <= height,
            converted@.len() == index * rb,
            forall|row: int|
                0 <= row < index ==> #[trigger] packs(
                    converted@.subrange(row * rb, row * rb + rb),
                    bits@.subrange(row * width, row * width + width),
                ),
        decreases height - index,
    {
        proof {
            assert(index * w + w <= height * w) by (nonlinear_arith)
                requires
                    index < height,
            ;
            assert(height * w == width * height) by (nonlinear_arith)
                requires
                    w == width,
            ;
        }
        let row_start = index * w;
        let line = vstd::slice::slice_to_vec(
            vstd::slice::slice_subrange(bits.as_slice(), row_start, row_start + w),
        );
        let mut packed = u8_to_bits(&line);
        let ghost before = converted@;
        let ghost p = packed@;
        converted.append(&mut packed);
        proof {
            assert(index * rb + rb == (index + 1) * rb) by (nonlinear_arith);
            assert forall|row: int| 0 <= row < index + 1 implies #[trigger] packs(
                converted@.subrange(row * rb, row * rb + rb),
                bits@.subrange(row * width, row * width + width),
            ) by {
                if row < index {
                    assert(row * rb + rb <= index * rb) by (nonlinear_arith)
                        requires
                            row < index,
                            rb >= 0,
                    ;
                    assert(0 <= row * rb) by (nonlinear_arith)
                        requires
                            row >= 0,
                            rb >= 0,
                    ;
                    assert(converted@.subrange(row * rb, row * rb + rb) =~= before.subrange(
                        row * rb,
                        row * rb + rb,
                    ));
                } else {
                    assert(converted@.subrange(row * rb, row * rb + rb) =~= p);
                    assert(line@ =~= bits@.subrange(row * width, row * width + width));
                }
            }
        }
        index = index + 1;
    }
    converted
}

impl PBM {
    /// The bitmap of `data` (`width`×`height` values, each 0 or 1) in the given mode.
    pub fn new(width: u32, height: u32, mode: Mode, data: &Vec<u8>) -> (r: Self)
        requires
            data@.len() == width * height,
            forall|i: int| 0 <= i < data@.len() ==> #[trigger] data@[i] <= 1,
        ensures
            r.mode == mode,
            r.width == width,
            r.height == height,
            mode == Mode::Ascii ==> r.data@.len() == data@.len() && forall|i: int|
                0 <= i < data@.len() ==> #[trigger] r.data@[i] == data@[i] + 48,
            mode == Mode::Binary ==> rows_packed(r.data@, data@, width as int, height as int),
    {
        match mode {
            Mode::Ascii => PBM { mode, width, height, data: byte_to_char(data) },
            Mode::Binary => PBM {
                mode,
                width,
                height,
                data: compress_bits_to_u8_array(width, height, data),
            },
        }
    }

    /// The file: "P1" (plain) or "P4" (raw), the size, then the pixel data.
    pub open spec fn file(&self) -> Seq<u8> {
        let magic = if self.mode == Mode::Ascii {
            seq![0x50u8, 0x31]
        } else {
            seq![0x50u8, 0x34]
        };
        size_header(magic, self.width, self.height) + self.data@
    }
}

impl Serializable for PBM {
    fn get_bytes(&self) -> (r: Vec<u8>)
        ensures
            r@ == self.file(),
    {
        let mut bytes: Vec<u8> = Vec::new();
        if self.mode == Mode::Ascii {
            push_size_header(&mut bytes, [0x50u8, 0x31].as_slice(), self.width, self.height);
        } else {
            push_size_header(&mut bytes, [0x50u8, 0x34].as_slice(), self.width, self.height);
        }
        extend(&mut bytes, self.data.as_slice());
        proof {
            assert(seq![0x50u8, 0x31] =~= [0x50u8, 0x31]@);
            assert(seq![0x50u8, 0x34] =~= [0x50u8, 0x34]@);
        }
        bytes
    }
}

} // verus!

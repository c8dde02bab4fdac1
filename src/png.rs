use vstd::prelude::*;

use crate::bytes::{be32, extend, le16, push_be32, push_le16};
use crate::checksum::adler::{adler32, adler_fold, lemma_adler_concat, AdlerIterator};
use crate::checksum::crc::crc32;
use crate::checksum::ChecksumIterator;
use crate::Serializable;

verus! {

/// Row `i` of the image data: `block_size` bytes.
pub open spec fn row_of(data: Seq<u8>, block_size: int, i: int) -> Seq<u8> {
    data.subrange(i * block_size, i * block_size + block_size)
}

/// The first `n` rows, each behind its filter byte 0: the uncompressed image stream.
pub open spec fn filtered_rows(data: Seq<u8>, block_size: int, n: int) -> Seq<u8>
    decreases n,
{
    if n <= 0 {
        Seq::empty()
    } else {
        filtered_rows(data, block_size, n - 1) + seq![0u8] + row_of(data, block_size, n - 1)
    }
}

/// The first `n` of `height` rows as stored deflate blocks: the final-block flag (set on the
/// last row), the length and its complement (low byte first), then the filtered row.
pub open spec fn stored_blocks(data: Seq<u8>, block_size: int, height: int, n: int) -> Seq<u8>
    decreases n,
{
    if n <= 0 {
        Seq::empty()
    } else {
        stored_blocks(data, block_size, height, n - 1) + seq![
            if n == height {
                1u8
            } else {
                0u8
            },
        ] + le16(block_size + 1) + le16(0xffff - (block_size + 1)) + seq![0u8] + row_of(
            data,
            block_size,
            n - 1,
        )
    }
}

/// The IDAT payload: a zlib header, the stored blocks, and the Adler-32 of the image stream.
pub open spec fn idat_payload(data: Seq<u8>, block_size: int, height: int) -> Seq<u8> {
    seq![0x78u8, 0x01] + stored_blocks(data, block_size, height, height) + be32(
        adler32(filtered_rows(data, block_size, height)),
    )
}

/// The IHDR payload: width, height, 8-bit depth, colour type (6: RGBA, 2: RGB), then zero
/// compression, filter and interlace methods.
pub open spec fn ihdr_payload(width: u32, height: u32, alpha: bool) -> Seq<u8> {
    be32(width as int) + be32(height as int) + seq![
        8u8,
        if alpha {
            6u8
        } else {
            2u8
        },
        0u8,
        0u8,
        0u8,
    ]
}

/// A chunk: payload length, name, payload, and the CRC-32 of name and payload.
pub open spec fn chunk(name: Seq<u8>, payload: Seq<u8>) -> Seq<u8> {
    be32(payload.len() as u32 as int) + name + payload + be32(crc32(name + payload) as int)
}

/// The whole file: signature, IHDR, IDAT, IEND.
pub open spec fn png_file(width: u32, height: u32, alpha: bool, idat: Seq<u8>) -> Seq<u8> {
    seq![0x89u8, 0x50, 0x4e, 0x47, 0x0d, 0x0a, 0x1a, 0x0a] + chunk(
        seq![0x49u8, 0x48, 0x44, 0x52],
        ihdr_payload(width, height, alpha),
    ) + chunk(seq![0x49u8, 0x44, 0x41, 0x54], idat) + chunk(seq![0x49u8, 0x45, 0x4e, 0x44], Seq::empty())
}

/// A PNG image with its IDAT payload laid out.
pub struct PNG {
    pub width: u32,
    pub height: u32,
    pub alpha: bool,
    pub idat: Vec<u8>,
}

/// One row as a stored deflate block.
pub struct DataBlock {
    pub is_last: bool,
    pub block_size: u16,
    pub data: Vec<u8>,
}

impl DataBlock {
    /// The block's bytes; the filtered row goes through `adler_iterator` as well.
    pub fn get_bytes_with_adler(&self, adler_iterator: &mut AdlerIterator) -> (r: Vec<u8>)
        requires
            self.block_size < 0xffff,
        ensures
            r@ == seq![
                if self.is_last {
                    1u8
                } else {
                    0u8
                },
            ] + le16(self.block_size + 1) + le16(0xffff - (self.block_size + 1)) + seq![0u8]
                + self.data@,
            final(adler_iterator).a == adler_fold(
                old(adler_iterator).a as int,
                old(adler_iterator).b as int,
                seq![0u8] + self.data@,
            ).0,
            final(adler_iterator).b == adler_fold(
                old(adler_iterator).a as int,
                old(adler_iterator).b as int,
                seq![0u8] + self.data@,
            ).1,
    {
        let mut bytes: Vec<u8> = Vec::new();
        bytes.push(if self.is_last { 1 } else { 0 });
        push_le16(&mut bytes, self.block_size + 1);
        push_le16(&mut bytes, 0xffff - (self.block_size + 1));
        let mut adler_bytes: Vec<u8> = Vec::new();
        adler_bytes.push(0);
        extend(&mut adler_bytes, self.data.as_slice());
        adler_iterator.iter(&adler_bytes);
        extend(&mut bytes, adler_bytes.as_slice());
        proof {
            assert(adler_bytes@ =~= seq![0u8] + self.data@);
            assert(bytes@ =~= seq![
                if self.is_last {
                    1u8
                } else {
                    0u8
                },
            ] + le16(self.block_size + 1) + le16(0xffff - (self.block_size + 1)) + seq![0u8]
                + self.data@);
        }
        bytes
    }
}

/// The IDAT payload of a `width`×`height` image of RGB or RGBA rows.
fn idat_bytes(width: u32, height: u32, alpha: bool, data: &Vec<u8>) -> (r: Vec<u8>)
    requires
        width * (if alpha { 4int } else { 3int }) < 0xffff,
        data@.len() == height * (width * (if alpha { 4int } else { 3int })),
    ensures
        r@ == idat_payload(data@, width * (if alpha { 4int } else { 3int }), height as int),
{
    let block_size: u16 = if alpha { (width * 4) as u16 } else { (width * 3) as u16 };
    let bs = block_size as usize;
    let len = data.len();
    let mut bytes: Vec<u8> = Vec::new();
    bytes.push(0x78);
    bytes.push(0x01);
    let mut adler_iterator = AdlerIterator::new();
    let mut i: u32 = 0;
    while i < height
        invariant
            block_size == width * (if alpha { 4int } else { 3int }),
            block_size < 0xffff,
            bs == block_size,
            len == data@.len(),
            data@.len() == height * bs,
            i <= height,
            bytes@ == seq![0x78u8, 0x01] + stored_blocks(data@, bs as int, height as int, i as int),
            adler_iterator.a == adler_fold(1, 0, filtered_rows(data@, bs as int, i as int)).0,
            adler_iterator.b == adler_fold(1, 0, filtered_rows(data@, bs as int, i as int)).1,
        decreases height - i,
    {
        proof {
            assert((i as int) * bs + bs <= height * bs) by (nonlinear_arith)
                requires
                    i < height,
            ;
            assert(0 <= (i as int) * bs) by (nonlinear_arith)
                requires
                    0 <= i,
            ;
        }
        let start = i as usize * bs;
        let row = vstd::slice::slice_to_vec(
            vstd::slice::slice_subrange(data.as_slice(), start, start + bs),
        );
        let block = DataBlock { is_last: i == height - 1, block_size, data: row };
        let ghost prev_rows = filtered_rows(data@, bs as int, i as int);
        let mut block_bytes = block.get_bytes_with_adler(&mut adler_iterator);
        bytes.append(&mut block_bytes);
        proof {
            lemma_adler_concat(1, 0, prev_rows, seq![0u8] + row@);
            assert(row@ == row_of(data@, bs as int, i as int));
            assert(filtered_rows(data@, bs as int, i + 1) =~= prev_rows + (seq![0u8] + row@));
            assert(bytes@ =~= seq![0x78u8, 0x01] + stored_blocks(
                data@,
                bs as int,
                height as int,
                i + 1,
            ));
        }
        i = i + 1;
    }
    let adler = adler_iterator.get();
    proof {
        crate::checksum::adler::lemma_adler_bounds(1, 0, filtered_rows(data@, bs as int, height as int));
    }
    push_be32(&mut bytes, adler);
    bytes
}

fn push_chunk(out: &mut Vec<u8>, name: &[u8], payload: &Vec<u8>)
    ensures
        final(out)@ == old(out)@ + chunk(name@, payload@),
{
    let mut crc_bytes: Vec<u8> = Vec::new();
    extend(&mut crc_bytes, name);
    extend(&mut crc_bytes, payload.as_slice());
    let crc = crate::checksum::crc::calc(&crc_bytes);
    push_be32(out, payload.len() as u32);
    extend(out, crc_bytes.as_slice());
    push_be32(out, crc);
    proof {
        assert(final(out)@ =~= old(out)@ + chunk(name@, payload@));
    }
}

impl PNG {
    /// A `width`×`height` image from `data`: rows of RGB pixels, or RGBA where `alpha`.
    pub fn new(width: u32, height: u32, alpha: bool, data: &Vec<u8>) -> (r: Self)
        requires
            width * (if alpha { 4int } else { 3int }) < 0xffff,
            data@.len() == height * (width * (if alpha { 4int } else { 3int })),
        ensures
            r.width == width,
            r.height == height,
            r.alpha == alpha,
            r.idat@ == idat_payload(data@, width * (if alpha { 4int } else { 3int }), height as int),
    {
        PNG { width, height, alpha, idat: idat_bytes(width, height, alpha, data) }
    }
}

impl Serializable for PNG {
    fn get_bytes(&self) -> (r: Vec<u8>)
        ensures
            r@ == png_file(self.width, self.height, self.alpha, self.idat@),
    {
        let mut bytes: Vec<u8> = Vec::new();
        extend(&mut bytes, [0x89u8, 0x50, 0x4e, 0x47, 0x0d, 0x0a, 0x1a, 0x0a].as_slice());
        let mut ihdr: Vec<u8> = Vec::new();
        push_be32(&mut ihdr, self.width);
        push_be32(&mut ihdr, self.height);
        extend(&mut ihdr, [8u8, if self.alpha { 6 } else { 2 }, 0, 0, 0].as_slice());
        push_chunk(&mut bytes, [0x49u8, 0x48, 0x44, 0x52].as_slice(), &ihdr);
        push_chunk(&mut bytes, [0x49u8, 0x44, 0x41, 0x54].as_slice(), &self.idat);
        push_chunk(&mut bytes, [0x49u8, 0x45, 0x4e, 0x44].as_slice(), &Vec::new());
        proof {
            assert(ihdr@ =~= ihdr_payload(self.width, self.height, self.alpha));
            assert(seq![0x49u8, 0x48, 0x44, 0x52] =~= [0x49u8, 0x48, 0x44, 0x52]@);
            assert(seq![0x49u8, 0x44, 0x41, 0x54] =~= [0x49u8, 0x44, 0x41, 0x54]@);
            assert(seq![0x49u8, 0x45, 0x4e, 0x44] =~= [0x49u8, 0x45, 0x4e, 0x44]@);
            assert(bytes@ =~= png_file(self.width, self.height, self.alpha, self.idat@));
        }
        bytes
    }
}

} // verus!

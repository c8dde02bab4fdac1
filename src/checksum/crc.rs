use vstd::prelude::*;

use super::ChecksumIterator;

verus! {

/// The CRC-32 of each four-bit value, four steps of `crc_step` from it.
pub const CRC_TABLE: [u32; 16] = [
    0x00000000, 0x1db71064, 0x3b6e20c8, 0x26d930ac,
    0x76dc4190, 0x6b6b51f4, 0x4db26158, 0x5005713c,
    0xedb88320, 0xf00f9344, 0xd6d6a3e8, 0xcb61b38c,
    0x9b64c2b0, 0x86d3d2d4, 0xa00ae278, 0xbdbdf21c,
];

/// One bit of the reflected CRC-32 (polynomial 0xEDB88320).
pub open spec fn crc_step(c: u32) -> u32 {
    if c & 1 == 1 {
        (c >> 1u32) ^ 0xedb8_8320u32
    } else {
        c >> 1u32
    }
}

/// One byte: the byte folded into the low bits, then eight bit steps.
pub open spec fn crc_byte(c: u32, x: u8) -> u32 {
    let c = c ^ (x as u32);
    crc_step(crc_step(crc_step(crc_step(crc_step(crc_step(crc_step(crc_step(c))))))))
}

/// The CRC register after `bytes`, starting from `c`.
pub open spec fn crc_fold(c: u32, bytes: Seq<u8>) -> u32
    decreases bytes.len(),
{
    if bytes.len() == 0 {
        c
    } else {
        crc_byte(crc_fold(c, bytes.drop_last()), bytes.last())
    }
}

/// The CRC-32 of `bytes`: the register starts with all ones and ends inverted.
pub open spec fn crc32(bytes: Seq<u8>) -> u32 {
    !crc_fold(0xffff_ffffu32, bytes)
}

spec fn table_entry(n: u32) -> u32 {
    if n == 0 {
        0x00000000
    } else     if n == 1 {
        0x1db71064
    } else     if n == 2 {
        0x3b6e20c8
    } else     if n == 3 {
        0x26d930ac
    } else     if n == 4 {
        0x76dc4190
    } else     if n == 5 {
        0x6b6b51f4
    } else     if n == 6 {
        0x4db26158
    } else     if n == 7 {
        0x5005713c
    } else     if n == 8 {
        0xedb88320
    } else     if n == 9 {
        0xf00f9344
    } else     if n == 10 {
        0xd6d6a3e8
    } else     if n == 11 {
        0xcb61b38c
    } else     if n == 12 {
        0x9b64c2b0
    } else     if n == 13 {
        0x86d3d2d4
    } else     if n == 14 {
        0xa00ae278
    } else {
        0xbdbdf21c
    }
}

proof fn lemma_table(n: u32)
    requires
        n < 16,
    ensures
        CRC_TABLE[n as int] == table_entry(n),
{
}

proof fn lemma_nibble(c: u32)
    by (bit_vector)
    ensures
        (c >> 4u32) ^ table_entry(c & 15) == crc_step(crc_step(crc_step(crc_step(c)))),
{
}

/// Runs the register from `crc` over `bytes`, four bits at a time.
fn crc_update(crc: u32, bytes: &Vec<u8>) -> (r: u32)
    ensures
        r == crc_fold(crc, bytes@),
{
    let mut c = crc;
    let mut i: usize = 0;
    proof {
        assert(bytes@.subrange(0, 0) =~= Seq::<u8>::empty());
    }
    while i < bytes.len()
        invariant
            i <= bytes@.len(),
            c == crc_fold(crc, bytes@.subrange(0, i as int)),
        decreases bytes@.len() - i,
    {
        let ghost prev = c;
        let x = bytes[i];
        c = c ^ (x as u32);
        let ghost mid = c;
        proof {
            assert(c & 15 < 16) by (bit_vector);
            lemma_table(c & 15);
            lemma_nibble(c);
        }
        c = (c >> 4) ^ CRC_TABLE[(c & 15) as usize];
        proof {
            assert(c & 15 < 16) by (bit_vector);
            lemma_table(c & 15);
            lemma_nibble(c);
        }
        c = (c >> 4) ^ CRC_TABLE[(c & 15) as usize];
        proof {
            let s = bytes@.subrange(0, i + 1);
            assert(s.drop_last() =~= bytes@.subrange(0, i as int));
            assert(c == crc_byte(prev, x));
        }
        i = i + 1;
    }
    proof {
        assert(bytes@.subrange(0, bytes@.len() as int) =~= bytes@);
    }
    c
}

/// The CRC-32 of `bytes`.
pub fn calc(bytes: &Vec<u8>) -> (r: u32)
    ensures
        r == crc32(bytes@),
{
    !crc_update(0xffff_ffff, bytes)
}

/// CRC-32 over bytes handed in piece by piece: the register so far.
pub struct CRCIterator {
    pub crc: u32,
}

impl ChecksumIterator for CRCIterator {
    fn new() -> (r: Self)
        ensures
            r.crc == 0xffff_ffffu32,
    {
        CRCIterator { crc: 0xffff_ffff }
    }

    fn iter(&mut self, bytes: &Vec<u8>)
        ensures
            final(self).crc == crc_fold(old(self).crc, bytes@),
    {
        self.crc = crc_update(self.crc, bytes);
    }

    fn get(&self) -> (r: u32)
        ensures
            r == !self.crc,
    {
        !self.crc
    }
}

} // verus!

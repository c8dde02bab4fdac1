use vstd::prelude::*;

use crate::jpg::common::byte_bit;

verus! {

/// Each 0 or 1 as the character \'0\' or \'1\' (any value up to 207 moved up by 48).
pub fn byte_to_char(u8_array: &Vec<u8>) -> (r: Vec<u8>)
    requires
        forall|i: int| 0 <= i < u8_array@.len() ==> #[trigger] u8_array@[i] <= 207,
    ensures
        r@.len() == u8_array@.len(),
        forall|i: int| 0 <= i < r@.len() ==> #[trigger] r@[i] == u8_array@[i] + 48,
{
    let mut r: Vec<u8> = Vec::new();
    let mut i: usize = 0;
    while i < u8_array.len()
        invariant
            i <= u8_array@.len(),
            forall|i: int| 0 <= i < u8_array@.len() ==> #[trigger] u8_array@[i] <= 207,
            r@.len() == i,
            forall|j: int| 0 <= j < i ==> #[trigger] r@[j] == u8_array@[j] + 48,
        decreases u8_array@.len() - i,
    {
        r.push(u8_array[i] + 48);
        i = i + 1;
    }
    r
}

/// `r` holds the 0/1 values of `bits` eight to a byte, first value in the top bit, the last
/// byte filled with zeros.
pub open spec fn packs(r: Seq<u8>, bits: Seq<u8>) -> bool {
    &&& r.len() == (bits.len() + 7) / 8
    &&& forall|j: int, b: int|
        0 <= j < r.len() && 0 <= b < 8 ==> #[trigger] byte_bit(r[j], b as u32) == (8 * j + b
            < bits.len() && bits[8 * j + b] == 1)
}

proof fn lemma_set_bit(r: u8, v: u8, i: u32, b: u32)
    by (bit_vector)
    requires
        v <= 1,
        i < 8,
        b < 8,
    ensures
        byte_bit(r | ((v << ((7 - i) as u8)) as u8), b) == (byte_bit(r, b) || (b == i && v == 1)),
{
}

proof fn lemma_zero_bits(b: u32)
    by (bit_vector)
    requires
        b < 8,
    ensures
        !byte_bit(0u8, b),
{
}

/// The first `calc_num` values of `u8_slice` (each 0 or 1) as the top bits of a byte.
fn to_bit(u8_slice: &[u8], calc_num: u8) -> (r: u8)
    requires
        calc_num <= 8,
        calc_num <= u8_slice@.len(),
        forall|i: int| 0 <= i < u8_slice@.len() ==> #[trigger] u8_slice@[i] <= 1,
    ensures
        forall|b: int| 0 <= b < 8 ==> #[trigger] byte_bit(r, b as u32) == (b < calc_num && u8_slice@[b] == 1),
{
    let mut result: u8 = 0;
    let mut index: u8 = 0;
    proof {
        assert forall|b: int| 0 <= b < 8 implies !#[trigger] byte_bit(result, b as u32) by {
            lemma_zero_bits(b as u32);
        }
    }
    while index < calc_num
        invariant
            index <= calc_num,
            calc_num <= 8,
            calc_num <= u8_slice@.len(),
            forall|i: int| 0 <= i < u8_slice@.len() ==> #[trigger] u8_slice@[i] <= 1,
            forall|b: int| 0 <= b < 8 ==> #[trigger] byte_bit(result, b as u32) == (b < index && u8_slice@[b] == 1),
        decreases calc_num - index,
    {
        let v = u8_slice[index as usize];
        let prev = result;
        result = prev | ((v << (7 - index)) as u8);
        proof {
            assert forall|b: int| 0 <= b < 8 implies #[trigger] byte_bit(result, b as u32) == (b < index + 1
                && u8_slice@[b] == 1) by {
                lemma_set_bit(prev, v, index as u32, b as u32);
            }
        }
        index = index + 1;
    }
    result
}

/// Packs 0/1 values eight to a byte, first value in the top bit; a last partial byte is
/// filled with zeros.
pub fn u8_to_bits(u8_array: &Vec<u8>) -> (r: Vec<u8>)
    requires
        forall|i: int| 0 <= i < u8_array@.len() ==> #[trigger] u8_array@[i] <= 1,
    ensures
        packs(r@, u8_array@),
{
    let mut bits_array: Vec<u8> = Vec::new();
    let count = u8_array.len();
    let mut index: usize = 0;
    while count - index >= 8
        invariant
            count == u8_array@.len(),
            forall|i: int| 0 <= i < u8_array@.len() ==> #[trigger] u8_array@[i] <= 1,
            index == 8 * bits_array@.len(),
            index <= count,
            forall|j: int, b: int|
                0 <= j < bits_array@.len() && 0 <= b < 8 ==> #[trigger] byte_bit(bits_array@[j], b as u32) == (
                u8_array@[8 * j + b] == 1),
        decreases count - index,
    {
        let slice = vstd::slice::slice_subrange(u8_array.as_slice(), index, index + 8);
        let byte = to_bit(slice, 8);
        let ghost j0 = bits_array@.len() as int;
        bits_array.push(byte);
        proof {
            assert forall|j: int, b: int|
                0 <= j < bits_array@.len() && 0 <= b < 8 implies #[trigger] byte_bit(bits_array@[j], b as u32) == (
                u8_array@[8 * j + b] == 1) by {
                if j == j0 {
                    assert(slice@[b] == u8_array@[8 * j + b]);
                }
            }
        }
        index = index + 8;
    }
    if index != count {
        let slice = vstd::slice::slice_subrange(u8_array.as_slice(), index, count);
        let byte = to_bit(slice, (count - index) as u8);
        let ghost j0 = bits_array@.len() as int;
        bits_array.push(byte);
        proof {
            assert forall|j: int, b: int|
                0 <= j < bits_array@.len() && 0 <= b < 8 implies #[trigger] byte_bit(bits_array@[j], b as u32) == (
                8 * j + b < u8_array@.len() && u8_array@[8 * j + b] == 1) by {
                if j == j0 {
                    if b < count - index {
                        assert(slice@[b] == u8_array@[8 * j + b]);
                    }
                }
            }
        }
    }
    bits_array
}

} // verus!

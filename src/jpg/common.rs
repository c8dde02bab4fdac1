use vstd::arithmetic::power2::*;
use vstd::prelude::*;

verus! {

/// Bit `i` of `x`, counted from the most significant end (bit 0 is the top bit).
pub open spec fn bit_at(x: u32, i: u32) -> bool {
    (x >> ((31 - i) as u32)) & 1u32 == 1u32
}

/// Bit `j` of the byte `b`, counted from the most significant end.
pub open spec fn byte_bit(b: u8, j: u32) -> bool {
    (b >> ((7 - j) as u8)) & 1u8 == 1u8
}

/// The `n` least significant bits of `v`, most significant first.
pub open spec fn low_bits(v: u32, n: nat) -> Seq<bool> {
    Seq::new(n, |i: int| (v >> ((n - 1 - i) as u32)) & 1u32 == 1u32)
}

/// The eight bits of a byte, most significant first.
pub open spec fn byte_bits(b: u8) -> Seq<bool> {
    Seq::new(8, |j: int| byte_bit(b, j as u32))
}

/// The bits of a byte string, each byte most significant bit first.
pub open spec fn bytes_bits(bs: Seq<u8>) -> Seq<bool>
    decreases bs.len(),
{
    if bs.len() == 0 {
        Seq::empty()
    } else {
        bytes_bits(bs.drop_last()) + byte_bits(bs.last())
    }
}

/// `n` one bits: the padding that closes an entropy-coded stream.
pub open spec fn ones(n: nat) -> Seq<bool> {
    Seq::new(n, |i: int| true)
}

pub proof fn lemma_bytes_bits_push(bs: Seq<u8>, b: u8)
    ensures
        bytes_bits(bs.push(b)) == bytes_bits(bs) + byte_bits(b),
{
    assert(bs.push(b).drop_last() =~= bs);
}

pub proof fn lemma_bytes_bits_len(bs: Seq<u8>)
    ensures
        bytes_bits(bs).len() == 8 * bs.len(),
    decreases bs.len(),
{
    if bs.len() > 0 {
        lemma_bytes_bits_len(bs.drop_last());
    }
}

pub proof fn lemma_bytes_bits_append(a: Seq<u8>, b: Seq<u8>)
    ensures
        bytes_bits(a + b) == bytes_bits(a) + bytes_bits(b),
    decreases b.len(),
{
    if b.len() == 0 {
        assert(a + b =~= a);
        assert(bytes_bits(b) =~= Seq::<bool>::empty());
        assert(bytes_bits(a) + bytes_bits(b) =~= bytes_bits(a));
    } else {
        lemma_bytes_bits_append(a, b.drop_last());
        assert((a + b).drop_last() =~= a + b.drop_last());
        assert((a + b).last() == b.last());
        assert(bytes_bits(a + b) == bytes_bits(a + b.drop_last()) + byte_bits(b.last()));
        assert(bytes_bits(a) + bytes_bits(b) =~= bytes_bits(a) + bytes_bits(b.drop_last())
            + byte_bits(b.last()));
    }
}

proof fn lemma_place_bit(v: u32, len: u32, i: u32)
    by (bit_vector)
    requires
        len <= 32,
        i < len,
    ensures
        bit_at((((v as u64) << ((32 - len) as u64)) as u32), i) == ((v >> ((len - 1 - i) as u32))
            & 1u32 == 1u32),
{
}

proof fn lemma_place_clean(v: u32, len: u32)
    by (bit_vector)
    requires
        len <= 32,
    ensures
        ((((v as u64) << ((32 - len) as u64)) as u32) as u64) & (0xffff_ffffu64 >> (len as u64))
            == 0,
{
}

proof fn lemma_concat_front(a: u32, b: u32, la: u32, i: u32)
    by (bit_vector)
    requires
        la <= 32,
        i < la,
    ensures
        bit_at(a | (((b as u64) >> (la as u64)) as u32), i) == bit_at(a, i),
{
}

proof fn lemma_concat_back(a: u32, b: u32, la: u32, lb: u32, i: u32)
    by (bit_vector)
    requires
        la + lb <= 32,
        la <= i < la + lb,
        (a as u64) & (0xffff_ffffu64 >> (la as u64)) == 0,
    ensures
        bit_at(a | (((b as u64) >> (la as u64)) as u32), i) == bit_at(b, (i - la) as u32),
{
}

proof fn lemma_concat_clean(a: u32, b: u32, la: u32, lb: u32)
    by (bit_vector)
    requires
        la + lb <= 32,
        (a as u64) & (0xffff_ffffu64 >> (la as u64)) == 0,
        (b as u64) & (0xffff_ffffu64 >> (lb as u64)) == 0,
    ensures
        ((a | (((b as u64) >> (la as u64)) as u32)) as u64) & (0xffff_ffffu64 >> ((la + lb) as u64))
            == 0,
{
}

proof fn lemma_top_byte(x: u32, j: u32)
    by (bit_vector)
    requires
        j < 8,
    ensures
        byte_bit((x >> 24u32) as u8, j) == bit_at(x, j),
{
}

proof fn lemma_shift_out(x: u32, i: u32)
    by (bit_vector)
    requires
        i < 24,
    ensures
        bit_at((((x as u64) << 8u64) as u32), i) == bit_at(x, (i + 8) as u32),
{
}

proof fn lemma_shift_clean(x: u32, len: u32)
    by (bit_vector)
    requires
        8 <= len <= 32,
        (x as u64) & (0xffff_ffffu64 >> (len as u64)) == 0,
    ensures
        ((((x as u64) << 8u64) as u32) as u64) & (0xffff_ffffu64 >> ((len - 8) as u64)) == 0,
{
}

proof fn lemma_pad_front(x: u32, len: u32, j: u32)
    by (bit_vector)
    requires
        j < len,
        len < 8,
    ensures
        byte_bit(((x >> 24u32) as u8) | (0xffu8 >> (len as u8)), j) == bit_at(x, j),
{
}

proof fn lemma_pad_back(x: u32, len: u32, j: u32)
    by (bit_vector)
    requires
        len <= j < 8,
    ensures
        byte_bit(((x >> 24u32) as u8) | (0xffu8 >> (len as u8)), j),
{
}

proof fn lemma_word_from_bits(a: u32, b: u32)
    by (bit_vector)
    requires
        bit_at(a, 0u32) == bit_at(b, 0u32),
        bit_at(a, 1u32) == bit_at(b, 1u32),
        bit_at(a, 2u32) == bit_at(b, 2u32),
        bit_at(a, 3u32) == bit_at(b, 3u32),
        bit_at(a, 4u32) == bit_at(b, 4u32),
        bit_at(a, 5u32) == bit_at(b, 5u32),
        bit_at(a, 6u32) == bit_at(b, 6u32),
        bit_at(a, 7u32) == bit_at(b, 7u32),
        bit_at(a, 8u32) == bit_at(b, 8u32),
        bit_at(a, 9u32) == bit_at(b, 9u32),
        bit_at(a, 10u32) == bit_at(b, 10u32),
        bit_at(a, 11u32) == bit_at(b, 11u32),
        bit_at(a, 12u32) == bit_at(b, 12u32),
        bit_at(a, 13u32) == bit_at(b, 13u32),
        bit_at(a, 14u32) == bit_at(b, 14u32),
        bit_at(a, 15u32) == bit_at(b, 15u32),
        bit_at(a, 16u32) == bit_at(b, 16u32),
        bit_at(a, 17u32) == bit_at(b, 17u32),
        bit_at(a, 18u32) == bit_at(b, 18u32),
        bit_at(a, 19u32) == bit_at(b, 19u32),
        bit_at(a, 20u32) == bit_at(b, 20u32),
        bit_at(a, 21u32) == bit_at(b, 21u32),
        bit_at(a, 22u32) == bit_at(b, 22u32),
        bit_at(a, 23u32) == bit_at(b, 23u32),
        bit_at(a, 24u32) == bit_at(b, 24u32),
        bit_at(a, 25u32) == bit_at(b, 25u32),
        bit_at(a, 26u32) == bit_at(b, 26u32),
        bit_at(a, 27u32) == bit_at(b, 27u32),
        bit_at(a, 28u32) == bit_at(b, 28u32),
        bit_at(a, 29u32) == bit_at(b, 29u32),
        bit_at(a, 30u32) == bit_at(b, 30u32),
        bit_at(a, 31u32) == bit_at(b, 31u32),
    ensures
        a == b,
{
}

proof fn lemma_byte_from_bits(a: u8, b: u8)
    by (bit_vector)
    requires
        byte_bit(a, 0u32) == byte_bit(b, 0u32),
        byte_bit(a, 1u32) == byte_bit(b, 1u32),
        byte_bit(a, 2u32) == byte_bit(b, 2u32),
        byte_bit(a, 3u32) == byte_bit(b, 3u32),
        byte_bit(a, 4u32) == byte_bit(b, 4u32),
        byte_bit(a, 5u32) == byte_bit(b, 5u32),
        byte_bit(a, 6u32) == byte_bit(b, 6u32),
        byte_bit(a, 7u32) == byte_bit(b, 7u32),
    ensures
        a == b,
{
}

proof fn lemma_clean_bit(x: u32, len: u32, i: u32)
    by (bit_vector)
    requires
        len <= i < 32,
        (x as u64) & (0xffff_ffffu64 >> (len as u64)) == 0,
    ensures
        !bit_at(x, i),
{
}

proof fn lemma_bytes_bits_injective(a: Seq<u8>, b: Seq<u8>)
    requires
        a.len() == b.len(),
        bytes_bits(a) == bytes_bits(b),
    ensures
        a == b,
    decreases a.len(),
{
    if a.len() > 0 {
        lemma_bytes_bits_len(a.drop_last());
        lemma_bytes_bits_len(b.drop_last());
        let n = 8 * (a.len() - 1);
        assert(bytes_bits(a).subrange(0, n) =~= bytes_bits(a.drop_last()));
        assert(bytes_bits(b).subrange(0, n) =~= bytes_bits(b.drop_last()));
        lemma_bytes_bits_injective(a.drop_last(), b.drop_last());
        let (x, y) = (a.last(), b.last());
        assert(bytes_bits(a) == bytes_bits(a.drop_last()) + byte_bits(x));
        assert(bytes_bits(b) == bytes_bits(b.drop_last()) + byte_bits(y));
        assert(bytes_bits(a)[n + 0] == byte_bits(x)[0] && bytes_bits(b)[n + 0] == byte_bits(y)[0]);
        assert(byte_bit(x, 0u32) == byte_bit(y, 0u32));
        assert(bytes_bits(a)[n + 1] == byte_bits(x)[1] && bytes_bits(b)[n + 1] == byte_bits(y)[1]);
        assert(byte_bit(x, 1u32) == byte_bit(y, 1u32));
        assert(bytes_bits(a)[n + 2] == byte_bits(x)[2] && bytes_bits(b)[n + 2] == byte_bits(y)[2]);
        assert(byte_bit(x, 2u32) == byte_bit(y, 2u32));
        assert(bytes_bits(a)[n + 3] == byte_bits(x)[3] && bytes_bits(b)[n + 3] == byte_bits(y)[3]);
        assert(byte_bit(x, 3u32) == byte_bit(y, 3u32));
        assert(bytes_bits(a)[n + 4] == byte_bits(x)[4] && bytes_bits(b)[n + 4] == byte_bits(y)[4]);
        assert(byte_bit(x, 4u32) == byte_bit(y, 4u32));
        assert(bytes_bits(a)[n + 5] == byte_bits(x)[5] && bytes_bits(b)[n + 5] == byte_bits(y)[5]);
        assert(byte_bit(x, 5u32) == byte_bit(y, 5u32));
        assert(bytes_bits(a)[n + 6] == byte_bits(x)[6] && bytes_bits(b)[n + 6] == byte_bits(y)[6]);
        assert(byte_bit(x, 6u32) == byte_bit(y, 6u32));
        assert(bytes_bits(a)[n + 7] == byte_bits(x)[7] && bytes_bits(b)[n + 7] == byte_bits(y)[7]);
        assert(byte_bit(x, 7u32) == byte_bit(y, 7u32));
        lemma_byte_from_bits(x, y);
        assert(a =~= a.drop_last().push(x));
        assert(b =~= b.drop_last().push(y));
    }
}

/// Bytes taken out of an accumulator, followed by the fewer than eight bits still pending,
/// fix both: two runs that produce the same bit stream produce the same bytes and leave the
/// same accumulator. So encoding is deterministic, and the bytes are the stream's first
/// `len / 8` whole bytes.
pub proof fn lemma_stream_determines(b1: Seq<u8>, f1: Bits, b2: Seq<u8>, f2: Bits)
    requires
        f1.wf(),
        f2.wf(),
        f1.length < 8,
        f2.length < 8,
        bytes_bits(b1) + f1@ == bytes_bits(b2) + f2@,
    ensures
        b1 == b2,
        f1 == f2,
        b1.len() == (bytes_bits(b1) + f1@).len() / 8,
{
    lemma_bytes_bits_len(b1);
    lemma_bytes_bits_len(b2);
    let s = bytes_bits(b1) + f1@;
    assert(s.len() == 8 * b1.len() + f1.length);
    assert(b1.len() == b2.len());
    let n = 8 * b1.len();
    assert(s.subrange(0, n as int) =~= bytes_bits(b1));
    assert((bytes_bits(b2) + f2@).subrange(0, n as int) =~= bytes_bits(b2));
    lemma_bytes_bits_injective(b1, b2);
    assert(f1.length == f2.length);
    assert forall|i: u32| i < 32 implies #[trigger] bit_at(f1.bits, i) == bit_at(f2.bits, i) by {
        if i < f1.length {
            assert(s[n + i] == f1@[i as int]);
            assert((bytes_bits(b2) + f2@)[n + i] == f2@[i as int]);
        } else {
            lemma_clean_bit(f1.bits, f1.length as u32, i);
            lemma_clean_bit(f2.bits, f2.length as u32, i);
        }
    }
    assert(bit_at(f1.bits, 0u32) == bit_at(f2.bits, 0u32));
    assert(bit_at(f1.bits, 1u32) == bit_at(f2.bits, 1u32));
    assert(bit_at(f1.bits, 2u32) == bit_at(f2.bits, 2u32));
    assert(bit_at(f1.bits, 3u32) == bit_at(f2.bits, 3u32));
    assert(bit_at(f1.bits, 4u32) == bit_at(f2.bits, 4u32));
    assert(bit_at(f1.bits, 5u32) == bit_at(f2.bits, 5u32));
    assert(bit_at(f1.bits, 6u32) == bit_at(f2.bits, 6u32));
    assert(bit_at(f1.bits, 7u32) == bit_at(f2.bits, 7u32));
    assert(bit_at(f1.bits, 8u32) == bit_at(f2.bits, 8u32));
    assert(bit_at(f1.bits, 9u32) == bit_at(f2.bits, 9u32));
    assert(bit_at(f1.bits, 10u32) == bit_at(f2.bits, 10u32));
    assert(bit_at(f1.bits, 11u32) == bit_at(f2.bits, 11u32));
    assert(bit_at(f1.bits, 12u32) == bit_at(f2.bits, 12u32));
    assert(bit_at(f1.bits, 13u32) == bit_at(f2.bits, 13u32));
    assert(bit_at(f1.bits, 14u32) == bit_at(f2.bits, 14u32));
    assert(bit_at(f1.bits, 15u32) == bit_at(f2.bits, 15u32));
    assert(bit_at(f1.bits, 16u32) == bit_at(f2.bits, 16u32));
    assert(bit_at(f1.bits, 17u32) == bit_at(f2.bits, 17u32));
    assert(bit_at(f1.bits, 18u32) == bit_at(f2.bits, 18u32));
    assert(bit_at(f1.bits, 19u32) == bit_at(f2.bits, 19u32));
    assert(bit_at(f1.bits, 20u32) == bit_at(f2.bits, 20u32));
    assert(bit_at(f1.bits, 21u32) == bit_at(f2.bits, 21u32));
    assert(bit_at(f1.bits, 22u32) == bit_at(f2.bits, 22u32));
    assert(bit_at(f1.bits, 23u32) == bit_at(f2.bits, 23u32));
    assert(bit_at(f1.bits, 24u32) == bit_at(f2.bits, 24u32));
    assert(bit_at(f1.bits, 25u32) == bit_at(f2.bits, 25u32));
    assert(bit_at(f1.bits, 26u32) == bit_at(f2.bits, 26u32));
    assert(bit_at(f1.bits, 27u32) == bit_at(f2.bits, 27u32));
    assert(bit_at(f1.bits, 28u32) == bit_at(f2.bits, 28u32));
    assert(bit_at(f1.bits, 29u32) == bit_at(f2.bits, 29u32));
    assert(bit_at(f1.bits, 30u32) == bit_at(f2.bits, 30u32));
    assert(bit_at(f1.bits, 31u32) == bit_at(f2.bits, 31u32));
    lemma_word_from_bits(f1.bits, f2.bits);
}

/// A codeword or a partly filled accumulator: the first `length` bits of `bits`, taken from
/// the most significant end; the bits below them are zero.
#[derive(Debug, PartialEq, Eq, Copy, Clone, Structural)]
pub struct Bits {
    pub length: u8,
    pub bits: u32,
}

impl View for Bits {
    type V = Seq<bool>;

    open spec fn view(&self) -> Seq<bool> {
        Seq::new(self.length as nat, |i: int| bit_at(self.bits, i as u32))
    }
}

impl Bits {
    /// At most 32 bits, and nothing below the last of them.
    pub open spec fn wf(self) -> bool {
        &&& self.length <= 32
        &&& (self.bits as u64) & (0xffff_ffffu64 >> (self.length as u64)) == 0
    }

    /// The padded final byte of a stream whose pending bits are `self`, and whether there
    /// were none.
    pub open spec fn completion(self) -> (u8, bool) {
        (((self.bits >> 24u32) as u8) | (0xffu8 >> self.length), self.length == 0)
    }

    /// The codeword made of the `length` low bits of `bits`.
    pub fn new(length: u8, bits: u32) -> (r: Self)
        requires
            length <= 32,
        ensures
            r.wf(),
            r.length == length,
            r@ == low_bits(bits, length as nat),
    {
        let r = Bits { length, bits: to_highest_pos(length, bits) };
        proof {
            lemma_place_clean(bits, length as u32);
            assert forall|i: int| 0 <= i < length implies #[trigger] r@[i] == low_bits(
                bits,
                length as nat,
            )[i] by {
                lemma_place_bit(bits, length as u32, i as u32);
            }
            assert(r@ =~= low_bits(bits, length as nat));
        }
        r
    }

    /// `self` followed by `rhs`.
    pub fn concat(self, rhs: Bits) -> (r: Bits)
        requires
            self.wf(),
            rhs.wf(),
            self.length + rhs.length <= 32,
        ensures
            r.wf(),
            r.length == self.length + rhs.length,
            r@ == self@ + rhs@,
    {
        let r = Bits {
            length: self.length + rhs.length,
            bits: self.bits | (((rhs.bits as u64) >> (self.length as u64)) as u32),
        };
        proof {
            let (a, b, la, lb) = (self.bits, rhs.bits, self.length as u32, rhs.length as u32);
            lemma_concat_clean(a, b, la, lb);
            assert forall|i: int| 0 <= i < r.length implies #[trigger] r@[i] == (self@ + rhs@)[i] by {
                if i < la {
                    lemma_concat_front(a, b, la, i as u32);
                } else {
                    lemma_concat_back(a, b, la, lb, i as u32);
                }
            }
            assert(r@ =~= self@ + rhs@);
        }
        r
    }

    /// Appends `rhs` in place.
    pub fn append(&mut self, rhs: Bits)
        requires
            old(self).wf(),
            rhs.wf(),
            old(self).length + rhs.length <= 32,
        ensures
            final(self).wf(),
            final(self).length == old(self).length + rhs.length,
            final(self)@ == old(self)@ + rhs@,
    {
        *self = self.concat(rhs);
    }

    /// Takes every complete byte out of the front, leaving fewer than eight bits.
    pub fn dump(&mut self) -> (bytes: Vec<u8>)
        requires
            old(self).wf(),
        ensures
            final(self).wf(),
            final(self).length < 8,
            bytes_bits(bytes@) + final(self)@ == old(self)@,
            bytes@.len() == old(self).length / 8,
    {
        let mut bytes: Vec<u8> = Vec::new();
        proof {
            assert(bytes_bits(bytes@) + self@ =~= self@);
        }
        while self.length >= 8
            invariant
                self.wf(),
                bytes_bits(bytes@) + self@ == old(self)@,
                bytes@.len() * 8 + self.length == old(self).length,
            decreases self.length,
        {
            let ghost prev = *self;
            let ghost prev_bytes = bytes@;
            let byte = #[verifier::truncate] ((self.bits >> 24) as u8);
            bytes.push(byte);
            self.length = self.length - 8;
            self.bits = #[verifier::truncate] (((self.bits as u64) << 8) as u32);
            proof {
                lemma_shift_clean(prev.bits, prev.length as u32);
                lemma_bytes_bits_push(prev_bytes, byte);
                assert(prev_bytes.push(byte) =~= bytes@);
                assert forall|j: int| 0 <= j < prev.length implies #[trigger] (byte_bits(byte)
                    + self@)[j] == prev@[j] by {
                    if j < 8 {
                        lemma_top_byte(prev.bits, j as u32);
                    } else {
                        lemma_shift_out(prev.bits, (j - 8) as u32);
                    }
                }
                assert(byte_bits(byte) + self@ =~= prev@);
                assert(bytes_bits(bytes@) + self@ =~= bytes_bits(prev_bytes) + prev@);
            }
        }
        bytes
    }

    /// The final byte of a stream whose pending bits are `self`: those bits, then ones to the
    /// end of the byte; and whether nothing was pending, in which case nothing is to be
    /// written.
    pub fn complete(&self) -> (r: (u8, bool))
        requires
            self.wf(),
            self.length < 8,
        ensures
            r == self.completion(),
            r.1 == (self.length == 0),
            byte_bits(r.0) == self@ + ones((8 - self.length) as nat),
    {
        let is_complete = self.length == 0;
        let last_byte = (#[verifier::truncate] ((self.bits >> 24) as u8)) | (0xffu8 >> self.length);
        proof {
            let len = self.length as u32;
            assert forall|j: int| 0 <= j < 8 implies #[trigger] byte_bits(last_byte)[j] == (self@
                + ones((8 - self.length) as nat))[j] by {
                if j < len {
                    lemma_pad_front(self.bits, len, j as u32);
                } else {
                    lemma_pad_back(self.bits, len, j as u32);
                }
            }
            assert(byte_bits(last_byte) =~= self@ + ones((8 - self.length) as nat));
        }
        (last_byte, is_complete)
    }
}

/// Moves the `length` low bits of `bits` to the top of the word.
pub fn to_highest_pos(length: u8, bits: u32) -> (r: u32)
    requires
        length <= 32,
    ensures
        r == (((bits as u64) << ((32 - length) as u64)) as u32),
{
    ((bits as u64) << ((32 - length) as u64)) as u32
}

/// The `length` low bits of `bits` (all of them from a length of 8 on).
pub fn get_lowest_n_bits(length: u8, bits: u8) -> (r: u8)
    requires
        length <= 15,
    ensures
        r == bits & ((((1u16 << (length as u16)) - 1) as u16) as u8),
        length < 8 ==> r as u16 == (bits as u16) % (1u16 << (length as u16)),
        length >= 8 ==> r == bits,
{
    assert(1u16 << (length as u16) >= 1) by (bit_vector)
        requires
            length <= 15,
    ;
    let mask: u16 = (1u16 << (length as u16)) - 1;
    let r = bits & (#[verifier::truncate] (mask as u8));
    assert(length < 8 ==> r as u16 == (bits as u16) % (1u16 << (length as u16))) by (bit_vector)
        requires
            length <= 15,
            mask == (1u16 << (length as u16)) - 1,
            r == bits & (mask as u8),
    ;
    assert(length >= 8 ==> r == bits) by (bit_vector)
        requires
            length <= 15,
            mask == (1u16 << (length as u16)) - 1,
            r == bits & (mask as u8),
    ;
    r
}

/// The number of binary digits of `n` (none for zero).
pub open spec fn bit_length(n: nat) -> nat
    decreases n,
{
    if n == 0 {
        0
    } else {
        1 + bit_length(n / 2)
    }
}

pub open spec fn abs(v: int) -> nat {
    if v < 0 {
        (-v) as nat
    } else {
        v as nat
    }
}

/// The magnitude category of a coefficient: the bit length of its absolute value.
pub open spec fn category(v: int) -> nat {
    bit_length(abs(v))
}

/// The number held in a coefficient's amplitude field: `v` itself, or for a negative `v` of
/// category `c` the value `v + 2^c - 1` (the low `c` bits of `v - 1`), which lies in
/// `[0, 2^(c-1))`; so -1 is 0, -2 is 01, -3 is 00.
pub open spec fn amplitude_value(v: int) -> int {
    if v < 0 {
        v + pow2(category(v)) - 1
    } else {
        v
    }
}

/// The raw bits that follow a coefficient's codeword: `category(v)` bits holding
/// `amplitude_value(v)`, most significant first.
pub open spec fn amplitude(v: int) -> Seq<bool> {
    low_bits(amplitude_value(v) as u32, category(v))
}

/// A number is below two to the power of its bit length.
pub proof fn lemma_below_pow2_bit_length(n: nat)
    ensures
        n < pow2(bit_length(n)),
    decreases n,
{
    lemma2_to64();
    if n > 0 {
        lemma_below_pow2_bit_length(n / 2);
        lemma_pow2_unfold(bit_length(n));
    }
}

proof fn lemma_bit_length_bound(n: nat, k: nat)
    requires
        n < pow2(k),
    ensures
        bit_length(n) <= k,
    decreases k,
{
    lemma2_to64();
    if n > 0 {
        lemma_pow2_unfold(k);
        lemma_bit_length_bound(n / 2, (k - 1) as nat);
    }
}

proof fn lemma_bit_length_lower(n: nat, k: nat)
    requires
        n >= pow2(k),
    ensures
        bit_length(n) >= k + 1,
    decreases k,
{
    lemma2_to64();
    if k > 0 {
        lemma_pow2_unfold(k);
        lemma_bit_length_lower(n / 2, (k - 1) as nat);
    }
}

/// A value of 2^16 or more in absolute value has a category above 15.
pub proof fn lemma_large_category(v: int)
    requires
        abs(v) >= 0x10000,
    ensures
        category(v) > 15,
{
    lemma2_to64();
    lemma_bit_length_lower(abs(v), 16);
}

/// The bit length of the absolute value of `num`.
pub fn get_abs_bit_conut(num: i32) -> (r: u32)
    ensures
        r == category(num as int),
        r <= 32,
{
    let mut n: u64 = if num < 0 { (0 - (num as i64)) as u64 } else { num as u64 };
    let mut r: u32 = 0;
    proof {
        lemma2_to64();
        lemma_bit_length_bound(n as nat, 32);
    }
    while n > 0
        invariant
            r + bit_length(n as nat) == category(num as int),
            category(num as int) <= 32,
        decreases n,
    {
        n = n / 2;
        r = r + 1;
    }
    r
}

/// The bit length of `num` read as an unsigned word: 32 for a negative `num`.
pub fn get_bit_conut(num: i32) -> (r: u32)
    ensures
        r == if num < 0 { 32 } else { category(num as int) },
{
    if num < 0 {
        32
    } else {
        get_abs_bit_conut(num)
    }
}

/// `num - 1` for a negative `num`, else `num`: the amplitude field before truncation.
pub fn get_ones_complements(num: i32) -> (r: i32)
    requires
        num > i32::MIN,
    ensures
        r == if num < 0 { num - 1 } else { num as int },
{
    if num < 0 {
        num - 1
    } else {
        num
    }
}

/// The amplitude field of a coefficient of category at most 16.
pub fn amplitude_bits(v: i32) -> (r: Bits)
    requires
        category(v as int) <= 16,
    ensures
        r.wf(),
        r.length == category(v as int),
        r@ == amplitude(v as int),
        0 <= amplitude_value(v as int) < pow2(category(v as int)),
{
    let c = get_abs_bit_conut(v);
    let mut p: u32 = 1;
    let mut i: u32 = 0;
    proof {
        lemma2_to64();
    }
    while i < c
        invariant
            i <= c,
            c <= 16,
            p == pow2(i as nat),
        decreases c - i,
    {
        proof {
            lemma_pow2_strictly_increases(i as nat, 16);
            lemma_pow2_unfold((i + 1) as nat);
            lemma2_to64();
        }
        p = p * 2;
        i = i + 1;
    }
    proof {
        lemma_below_pow2_bit_length(abs(v as int));
        if v < 0 {
            lemma_pow2_unfold(c as nat);
            assert(abs(v as int) >= 1);
        }
    }
    let value: u32 = if v < 0 {
        (v as i64 + p as i64 - 1) as u32
    } else {
        v as u32
    };
    Bits::new(c as u8, value)
}

} // verus!

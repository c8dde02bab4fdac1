use vstd::prelude::*;

use super::ChecksumIterator;

verus! {

pub const MOD_ADLER: u32 = 65521;

/// The two Adler-32 sums after running from (`a`, `b`) over `bytes`: `a` adds each byte,
/// `b` adds each new `a`, both modulo 65521.
pub open spec fn adler_fold(a: int, b: int, bytes: Seq<u8>) -> (int, int)
    decreases bytes.len(),
{
    if bytes.len() == 0 {
        (a, b)
    } else {
        let (pa, pb) = adler_fold(a, b, bytes.drop_last());
        let na = (pa + bytes.last()) % 65521;
        (na, (pb + na) % 65521)
    }
}

/// The Adler-32 checksum of `bytes`: `b · 65536 + a`, starting from a = 1 and b = 0.
pub open spec fn adler32(bytes: Seq<u8>) -> int {
    let (a, b) = adler_fold(1, 0, bytes);
    b * 65536 + a
}

proof fn lemma_adler_push(a: int, b: int, bytes: Seq<u8>, x: u8)
    ensures
        adler_fold(a, b, bytes.push(x)) == ({
            let (pa, pb) = adler_fold(a, b, bytes);
            let na = (pa + x) % 65521;
            (na, (pb + na) % 65521)
        }),
{
    assert(bytes.push(x).drop_last() =~= bytes);
}

/// Running the sums over two pieces in turn is running them over the whole.
pub proof fn lemma_adler_concat(a: int, b: int, s1: Seq<u8>, s2: Seq<u8>)
    ensures
        adler_fold(a, b, s1 + s2) == adler_fold(adler_fold(a, b, s1).0, adler_fold(a, b, s1).1, s2),
    decreases s2.len(),
{
    if s2.len() == 0 {
        assert(s1 + s2 =~= s1);
    } else {
        lemma_adler_concat(a, b, s1, s2.drop_last());
        assert((s1 + s2).drop_last() =~= s1 + s2.drop_last());
        assert((s1 + s2).last() == s2.last());
    }
}

pub proof fn lemma_adler_bounds(a: int, b: int, bytes: Seq<u8>)
    requires
        0 <= a < 65521,
        0 <= b < 65521,
    ensures
        0 <= adler_fold(a, b, bytes).0 < 65521,
        0 <= adler_fold(a, b, bytes).1 < 65521,
    decreases bytes.len(),
{
    if bytes.len() > 0 {
        lemma_adler_bounds(a, b, bytes.drop_last());
    }
}

proof fn lemma_join(a: u32, b: u32)
    by (bit_vector)
    requires
        a < 65536,
        b < 65536,
    ensures
        (b << 16u32) | a == b * 65536 + a,
{
}

/// Runs the two sums over `bytes` from (`a`, `b`).
fn adler_update(a: u32, b: u32, bytes: &Vec<u8>) -> (r: (u32, u32))
    ensures
        r.0 == adler_fold(a as int, b as int, bytes@).0,
        r.1 == adler_fold(a as int, b as int, bytes@).1,
{
    let mut a = a;
    let mut b = b;
    let ghost (a0, b0) = (a as int, b as int);
    let mut i: usize = 0;
    proof {
        assert(bytes@.subrange(0, 0) =~= Seq::<u8>::empty());
    }
    while i < bytes.len()
        invariant
            i <= bytes@.len(),
            a == adler_fold(a0, b0, bytes@.subrange(0, i as int)).0,
            b == adler_fold(a0, b0, bytes@.subrange(0, i as int)).1,
        decreases bytes@.len() - i,
    {
        proof {
            lemma_adler_push(a0, b0, bytes@.subrange(0, i as int), bytes@[i as int]);
            assert(bytes@.subrange(0, i as int).push(bytes@[i as int]) =~= bytes@.subrange(
                0,
                i + 1,
            ));
        }
        a = ((a as u64 + bytes[i] as u64) % 65521) as u32;
        b = ((b as u64 + a as u64) % 65521) as u32;
        i = i + 1;
    }
    proof {
        assert(bytes@.subrange(0, bytes@.len() as int) =~= bytes@);
    }
    (a, b)
}

/// The Adler-32 checksum of `bytes`.
pub fn calc(bytes: &Vec<u8>) -> (r: u32)
    ensures
        r == adler32(bytes@),
{
    let (a, b) = adler_update(1, 0, bytes);
    proof {
        lemma_adler_bounds(1, 0, bytes@);
        lemma_join(a, b);
    }
    (b << 16) | a
}

/// Adler-32 over bytes handed in piece by piece: the sums so far.
pub struct AdlerIterator {
    pub a: u32,
    pub b: u32,
}

impl ChecksumIterator for AdlerIterator {
    fn new() -> (r: Self)
        ensures
            r.a == 1 && r.b == 0,
    {
        AdlerIterator { a: 1, b: 0 }
    }

    fn iter(&mut self, bytes: &Vec<u8>)
        ensures
            final(self).a == adler_fold(old(self).a as int, old(self).b as int, bytes@).0,
            final(self).b == adler_fold(old(self).a as int, old(self).b as int, bytes@).1,
    {
        let (a, b) = adler_update(self.a, self.b, bytes);
        self.a = a;
        self.b = b;
    }

    fn get(&self) -> (r: u32)
        ensures
            r == (self.b << 16u32) | self.a,
            self.a < 65521 && self.b < 65521 ==> r == self.b * 65536 + self.a,
    {
        proof {
            if self.a < 65521 && self.b < 65521 {
                lemma_join(self.a, self.b);
            }
        }
        (self.b << 16) | self.a
    }
}

} // verus!

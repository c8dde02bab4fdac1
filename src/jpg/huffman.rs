use vstd::prelude::*;

use super::common::low_bits;
pub use super::common::Bits;
use super::jpeg::Mode;
use super::rle::{ac_bits, dc_bits, EncodeError};

verus! {

pub const LUMINANCE_DC_COUNT: [u8; 16] = [
    0, 1, 5, 1, 1, 1, 1, 1,
    1, 0, 0, 0, 0, 0, 0, 0,
];

pub const LUMINANCE_DC_VALUES: [u8; 12] = [
    0, 1, 2, 3, 4, 5, 6, 7,
    8, 9, 10, 11,
];

pub const LUMINANCE_AC_COUNT: [u8; 16] = [
    0, 2, 1, 3, 3, 2, 4, 3,
    5, 5, 4, 4, 0, 0, 1, 125,
];

pub const LUMINANCE_AC_VALUES: [u8; 162] = [
    0x01, 0x02, 0x03, 0x00, 0x04, 0x11, 0x05, 0x12,
    0x21, 0x31, 0x41, 0x06, 0x13, 0x51, 0x61, 0x07,
    0x22, 0x71, 0x14, 0x32, 0x81, 0x91, 0xa1, 0x08,
    0x23, 0x42, 0xb1, 0xc1, 0x15, 0x52, 0xd1, 0xf0,
    0x24, 0x33, 0x62, 0x72, 0x82, 0x09, 0x0a, 0x16,
    0x17, 0x18, 0x19, 0x1a, 0x25, 0x26, 0x27, 0x28,
    0x29, 0x2a, 0x34, 0x35, 0x36, 0x37, 0x38, 0x39,
    0x3a, 0x43, 0x44, 0x45, 0x46, 0x47, 0x48, 0x49,
    0x4a, 0x53, 0x54, 0x55, 0x56, 0x57, 0x58, 0x59,
    0x5a, 0x63, 0x64, 0x65, 0x66, 0x67, 0x68, 0x69,
    0x6a, 0x73, 0x74, 0x75, 0x76, 0x77, 0x78, 0x79,
    0x7a, 0x83, 0x84, 0x85, 0x86, 0x87, 0x88, 0x89,
    0x8a, 0x92, 0x93, 0x94, 0x95, 0x96, 0x97, 0x98,
    0x99, 0x9a, 0xa2, 0xa3, 0xa4, 0xa5, 0xa6, 0xa7,
    0xa8, 0xa9, 0xaa, 0xb2, 0xb3, 0xb4, 0xb5, 0xb6,
    0xb7, 0xb8, 0xb9, 0xba, 0xc2, 0xc3, 0xc4, 0xc5,
    0xc6, 0xc7, 0xc8, 0xc9, 0xca, 0xd2, 0xd3, 0xd4,
    0xd5, 0xd6, 0xd7, 0xd8, 0xd9, 0xda, 0xe1, 0xe2,
    0xe3, 0xe4, 0xe5, 0xe6, 0xe7, 0xe8, 0xe9, 0xea,
    0xf1, 0xf2, 0xf3, 0xf4, 0xf5, 0xf6, 0xf7, 0xf8,
    0xf9, 0xfa,
];

pub const CHROMINANCE_DC_COUNT: [u8; 16] = [
    0, 3, 1, 1, 1, 1, 1, 1,
    1, 1, 1, 0, 0, 0, 0, 0,
];

pub const CHROMINANCE_DC_VALUES: [u8; 12] = [
    0, 1, 2, 3, 4, 5, 6, 7,
    8, 9, 10, 11,
];

pub const CHROMINANCE_AC_COUNT: [u8; 16] = [
    0, 2, 1, 2, 4, 4, 3, 4,
    7, 5, 4, 4, 0, 1, 2, 119,
];

pub const CHROMINANCE_AC_VALUES: [u8; 162] = [
    0x00, 0x01, 0x02, 0x03, 0x11, 0x04, 0x05, 0x21,
    0x31, 0x06, 0x12, 0x41, 0x51, 0x07, 0x61, 0x71,
    0x13, 0x22, 0x32, 0x81, 0x08, 0x14, 0x42, 0x91,
    0xa1, 0xb1, 0xc1, 0x09, 0x23, 0x33, 0x52, 0xf0,
    0x15, 0x62, 0x72, 0xd1, 0x0a, 0x16, 0x24, 0x34,
    0xe1, 0x25, 0xf1, 0x17, 0x18, 0x19, 0x1a, 0x26,
    0x27, 0x28, 0x29, 0x2a, 0x35, 0x36, 0x37, 0x38,
    0x39, 0x3a, 0x43, 0x44, 0x45, 0x46, 0x47, 0x48,
    0x49, 0x4a, 0x53, 0x54, 0x55, 0x56, 0x57, 0x58,
    0x59, 0x5a, 0x63, 0x64, 0x65, 0x66, 0x67, 0x68,
    0x69, 0x6a, 0x73, 0x74, 0x75, 0x76, 0x77, 0x78,
    0x79, 0x7a, 0x82, 0x83, 0x84, 0x85, 0x86, 0x87,
    0x88, 0x89, 0x8a, 0x92, 0x93, 0x94, 0x95, 0x96,
    0x97, 0x98, 0x99, 0x9a, 0xa2, 0xa3, 0xa4, 0xa5,
    0xa6, 0xa7, 0xa8, 0xa9, 0xaa, 0xb2, 0xb3, 0xb4,
    0xb5, 0xb6, 0xb7, 0xb8, 0xb9, 0xba, 0xc2, 0xc3,
    0xc4, 0xc5, 0xc6, 0xc7, 0xc8, 0xc9, 0xca, 0xd2,
    0xd3, 0xd4, 0xd5, 0xd6, 0xd7, 0xd8, 0xd9, 0xda,
    0xe2, 0xe3, 0xe4, 0xe5, 0xe6, 0xe7, 0xe8, 0xe9,
    0xea, 0xf2, 0xf3, 0xf4, 0xf5, 0xf6, 0xf7, 0xf8,
    0xf9, 0xfa,
];

/// A Huffman table as a JPEG file stores it: how many codes there are of each length from 1
/// to 16 bits, and the symbols in the order in which they receive codes.
pub struct HuffmanSpec {
    pub count: [u8; 16],
    pub value: Vec<u8>,
}

/// How many codes are shorter than `l + 1` bits.
pub open spec fn codes_before(count: Seq<u8>, l: int) -> int
    decreases l,
{
    if l <= 0 {
        0
    } else {
        codes_before(count, l - 1) + count[l - 1]
    }
}

/// The first codeword of length `l + 1` under the canonical assignment: codes of one length
/// are consecutive integers, and each length starts at twice the end of the one before.
pub open spec fn first_code(count: Seq<u8>, l: int) -> int
    decreases l,
{
    if l <= 0 {
        0
    } else {
        (first_code(count, l - 1) + count[l - 1]) * 2
    }
}

/// `k` is the first position of `sym` in `values`.
pub open spec fn is_first(values: Seq<u8>, sym: u8, k: int) -> bool {
    &&& 0 <= k < values.len()
    &&& values[k] == sym
    &&& forall|j: int| 0 <= j < k ==> values[j] != sym
}

/// `sym` receives a code: its first position is among those the length histogram covers.
pub open spec fn has_code(count: Seq<u8>, values: Seq<u8>, sym: u8) -> bool {
    exists|k: int| is_first(values, sym, k) && k < codes_before(count, 16)
}

pub open spec fn code_index(values: Seq<u8>, sym: u8) -> int {
    choose|k: int| is_first(values, sym, k)
}

/// The length index (code length minus one) of the code at position `k`.
pub open spec fn code_level(count: Seq<u8>, k: int) -> int {
    choose|l: int| 0 <= l < 16 && #[trigger] codes_before(count, l) <= k < codes_before(count, l + 1)
}

/// The canonical codeword of `sym`, most significant bit first.
pub open spec fn codeword(count: Seq<u8>, values: Seq<u8>, sym: u8) -> Seq<bool> {
    let k = code_index(values, sym);
    let l = code_level(count, k);
    low_bits((first_code(count, l) + k - codes_before(count, l)) as u32, (l + 1) as nat)
}

/// The DC table of a plane, as (length histogram, symbols).
pub open spec fn dc_table(mode: Mode) -> (Seq<u8>, Seq<u8>) {
    match mode {
        Mode::Luminance => (LUMINANCE_DC_COUNT@, LUMINANCE_DC_VALUES@),
        Mode::Chromiance => (CHROMINANCE_DC_COUNT@, CHROMINANCE_DC_VALUES@),
    }
}

/// The AC table of a plane, as (length histogram, symbols).
pub open spec fn ac_table(mode: Mode) -> (Seq<u8>, Seq<u8>) {
    match mode {
        Mode::Luminance => (LUMINANCE_AC_COUNT@, LUMINANCE_AC_VALUES@),
        Mode::Chromiance => (CHROMINANCE_AC_COUNT@, CHROMINANCE_AC_VALUES@),
    }
}

spec fn code_bound(l: int) -> int
    decreases l,
{
    if l <= 0 {
        0
    } else {
        (code_bound(l - 1) + 255) * 2
    }
}

proof fn lemma_code_bounds(count: Seq<u8>, l: int)
    requires
        0 <= l <= 16,
        count.len() == 16,
    ensures
        0 <= first_code(count, l) <= code_bound(l),
        code_bound(l) <= code_bound(16),
        code_bound(16) == 33422850,
        0 <= codes_before(count, l) <= 255 * l,
    decreases l,
{
    reveal_with_fuel(code_bound, 17);
    if l > 0 {
        lemma_code_bounds(count, l - 1);
    }
    lemma_code_bound_mono(l);
}

proof fn lemma_code_bound_mono(l: int)
    requires
        0 <= l <= 16,
    ensures
        code_bound(l) <= code_bound(16),
    decreases 16 - l,
{
    if l < 16 {
        lemma_code_bound_nonneg(l);
        lemma_code_bound_mono(l + 1);
    }
}

proof fn lemma_code_bound_nonneg(l: int)
    ensures
        code_bound(l) >= 0,
    decreases l,
{
    if l > 0 {
        lemma_code_bound_nonneg(l - 1);
    }
}

proof fn lemma_codes_before_mono(count: Seq<u8>, a: int, b: int)
    requires
        0 <= a <= b <= 16,
        count.len() == 16,
    ensures
        codes_before(count, a) <= codes_before(count, b),
    decreases b - a,
{
    if a < b {
        lemma_codes_before_mono(count, a, b - 1);
    }
}

/// The codeword of `symbol` under the canonical assignment for the table (`count`, `value`),
/// or `None` where the table gives it no code.
pub fn lookup(count: &[u8; 16], value: &[u8], symbol: u8) -> (r: Option<Bits>)
    ensures
        r is Some == has_code(count@, value@, symbol),
        r matches Some(b) ==> b.wf() && 1 <= b.length <= 16 && b@ == codeword(
            count@,
            value@,
            symbol,
        ),
{
    let mut code: u32 = 0;
    let mut k: usize = 0;
    let mut l: usize = 0;
    while l < 16
        invariant
            l <= 16,
            k == codes_before(count@, l as int),
            code == first_code(count@, l as int),
            forall|j: int| 0 <= j < k && j < value@.len() ==> value@[j] != symbol,
        decreases 16 - l,
    {
        let n = count[l];
        let mut j: u8 = 0;
        proof {
            lemma_code_bounds(count@, l as int);
            lemma_code_bounds(count@, (l + 1) as int);
        }
        while j < n
            invariant
                l < 16,
                n == count@[l as int],
                j <= n,
                k == codes_before(count@, l as int) + j,
                code == first_code(count@, l as int) + j,
                first_code(count@, l as int) <= 33422850,
                codes_before(count@, l as int) <= 255 * 16,
                forall|j: int| 0 <= j < k && j < value@.len() ==> value@[j] != symbol,
            decreases n - j,
        {
            if k < value.len() && value[k] == symbol {
                let b = Bits::new((l + 1) as u8, code);
                proof {
                    let ki = k as int;
                    let li = l as int;
                    assert(is_first(value@, symbol, ki));
                    assert(codes_before(count@, li + 1) == codes_before(count@, li) + n);
                    lemma_codes_before_mono(count@, li + 1, 16);
                    assert(has_code(count@, value@, symbol));
                    let kc = code_index(value@, symbol);
                    assert(is_first(value@, symbol, kc));
                    assert(kc == ki) by {
                        if kc < ki {
                            assert(value@[kc] != symbol);
                        } else if kc > ki {
                            assert(value@[ki] != symbol);
                        }
                    }
                    assert(0 <= li < 16 && codes_before(count@, li) <= ki < codes_before(
                        count@,
                        li + 1,
                    ));
                    let lc = code_level(count@, ki);
                    assert(0 <= lc < 16 && codes_before(count@, lc) <= ki < codes_before(
                        count@,
                        lc + 1,
                    ));
                    assert(lc == li) by {
                        if lc < li {
                            lemma_codes_before_mono(count@, lc + 1, li);
                        } else if lc > li {
                            lemma_codes_before_mono(count@, li + 1, lc);
                        }
                    }
                }
                return Some(b);
            }
            code = code + 1;
            k = k + 1;
            j = j + 1;
        }
        code = code * 2;
        l = l + 1;
    }
    proof {
        if has_code(count@, value@, symbol) {
            let kw = choose|kw: int| is_first(value@, symbol, kw) && kw < codes_before(count@, 16);
            assert(value@[kw] != symbol);
        }
    }
    None
}

impl HuffmanSpec {
    /// The codeword of `symbol` under this table, or `None` where it has none.
    pub fn get(&self, symbol: u8) -> (r: Option<Bits>)
        ensures
            r is Some == has_code(self.count@, self.value@, symbol),
            r matches Some(b) ==> b.wf() && 1 <= b.length <= 16 && b@ == codeword(
                self.count@,
                self.value@,
                symbol,
            ),
    {
        lookup(&self.count, self.value.as_slice(), symbol)
    }
}

/// The codeword of a DC category symbol in the table of `mode`.
pub fn dc_codeword(mode: Mode, symbol: u8) -> (r: Option<Bits>)
    ensures
        r is Some == has_code(dc_table(mode).0, dc_table(mode).1, symbol),
        r matches Some(b) ==> b.wf() && 1 <= b.length <= 16 && b@ == codeword(
            dc_table(mode).0,
            dc_table(mode).1,
            symbol,
        ),
{
    match mode {
        Mode::Luminance => lookup(&LUMINANCE_DC_COUNT, LUMINANCE_DC_VALUES.as_slice(), symbol),
        Mode::Chromiance => lookup(&CHROMINANCE_DC_COUNT, CHROMINANCE_DC_VALUES.as_slice(), symbol),
    }
}

/// The codeword of an AC (run, category) symbol in the table of `mode`.
pub fn ac_codeword(mode: Mode, symbol: u8) -> (r: Option<Bits>)
    ensures
        r is Some == has_code(ac_table(mode).0, ac_table(mode).1, symbol),
        r matches Some(b) ==> b.wf() && 1 <= b.length <= 16 && b@ == codeword(
            ac_table(mode).0,
            ac_table(mode).1,
            symbol,
        ),
{
    match mode {
        Mode::Luminance => lookup(&LUMINANCE_AC_COUNT, LUMINANCE_AC_VALUES.as_slice(), symbol),
        Mode::Chromiance => lookup(&CHROMINANCE_AC_COUNT, CHROMINANCE_AC_VALUES.as_slice(), symbol),
    }
}

/// The bits of the luminance DC difference `dc`: its category's codeword, then its amplitude.
pub fn encode_dc(dc: i32) -> (r: Result<Bits, EncodeError>)
    ensures
        r is Ok == dc_bits(Mode::Luminance, dc as int) is Some,
        r matches Ok(b) ==> b.wf() && Some(b@) == dc_bits(Mode::Luminance, dc as int),
{
    super::rle::encode_dc(dc, Mode::Luminance)
}

/// The bits of the luminance AC pair (`run_length` zeros, then `ac`): the codeword of its
/// symbol, then the amplitude of `ac`.
pub fn encode_ac(run_length: u8, ac: i32) -> (r: Result<Bits, EncodeError>)
    requires
        run_length <= 15,
    ensures
        r is Ok == ac_bits(Mode::Luminance, run_length as int, ac as int) is Some,
        r matches Ok(b) ==> b.wf() && Some(b@) == ac_bits(
            Mode::Luminance,
            run_length as int,
            ac as int,
        ),
{
    super::rle::encode_ac(run_length, ac, Mode::Luminance)
}

} // verus!

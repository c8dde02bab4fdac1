pub mod common;
pub mod huffman;
pub mod jpeg;
pub mod quant;
pub mod rle;

use vstd::prelude::*;

verus! {

/// Widens RGB pixel data to RGBA with an opaque alpha.
pub fn to_rgba(data: &Vec<u8>) -> (r: Vec<u8>)
    requires
        data@.len() % 3 == 0,
        data@.len() / 3 * 4 <= usize::MAX,
    ensures
        r@.len() == data@.len() / 3 * 4,
        forall|p: int, c: int|
            0 <= p < data@.len() / 3 && 0 <= c < 3 ==> #[trigger] r@[4 * p + c] == data@[3 * p + c],
        forall|p: int| 0 <= p < data@.len() / 3 ==> #[trigger] r@[4 * p + 3] == 255,
{
    let mut r: Vec<u8> = Vec::new();
    let len = data.len();
    let n = len / 3;
    let mut p: usize = 0;
    while p < n
        invariant
            n == data@.len() / 3,
            len == data@.len(),
            p <= n,
            r@.len() == 4 * p,
            forall|q: int, c: int|
                0 <= q < p && 0 <= c < 3 ==> #[trigger] r@[4 * q + c] == data@[3 * q + c],
            forall|q: int| 0 <= q < p ==> #[trigger] r@[4 * q + 3] == 255,
        decreases n - p,
    {
        r.push(data[3 * p]);
        r.push(data[3 * p + 1]);
        r.push(data[3 * p + 2]);
        r.push(255);
        p = p + 1;
    }
    r
}

} // verus!

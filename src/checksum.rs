pub mod adler;
pub mod crc;

use vstd::prelude::*;

verus! {

/// A checksum computed over bytes handed in piece by piece.
pub trait ChecksumIterator: Sized {
    fn new() -> Self;

    fn iter(&mut self, bytes: &Vec<u8>);

    fn get(&self) -> u32;
}

} // verus!

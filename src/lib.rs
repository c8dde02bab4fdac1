pub mod bmp;
pub mod bytes;
pub mod checksum;
pub mod netpbm;
pub mod png;
pub mod jpg;

use vstd::prelude::*;

verus! {

/// An image file format that lays itself out as bytes.
pub trait Serializable {
    fn get_bytes(&self) -> Vec<u8>;
}

} // verus!

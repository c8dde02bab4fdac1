use vstd::prelude::*;

use super::{ascii_values, max_header, push_ascii_values, push_max_header, push_scaled_values,
    scaled_values, Mode};
use crate::Serializable;

verus! {

/// A pixmap: three values (red, green, blue) per pixel, from 0 to `max_value`.
pub struct PPM {
    pub mode: Mode,
    pub width: u32,
    pub height: u32,
    pub max_value: u8,
    pub data: Vec<u8>,
}

impl PPM {
    pub fn new(mode: Mode, width: u32, height: u32, max_value: u8, data: &Vec<u8>) -> (r: Self)
        ensures
            r.mode == mode,
            r.width == width,
            r.height == height,
            r.max_value == max_value,
            r.data@ == data@,
    {
        PPM { mode, width, height, max_value, data: data.clone() }
    }

    /// The file: "P3" with plain decimal values each followed by a space, or "P6" with the
    /// values scaled to the byte range.
    pub open spec fn file(&self) -> Seq<u8> {
        match self.mode {
            Mode::Ascii => max_header(seq![0x50u8, 0x33], self.width, self.height, self.max_value)
                + ascii_values(self.data@),
            Mode::Binary => max_header(seq![0x50u8, 0x36], self.width, self.height, self.max_value)
                + scaled_values(self.data@, self.max_value),
        }
    }
}

impl Serializable for PPM {
    fn get_bytes(&self) -> (r: Vec<u8>)
        ensures
            r@ == self.file(),
    {
        let mut bytes: Vec<u8> = Vec::new();
        match self.mode {
            Mode::Ascii => {
                push_max_header(&mut bytes, [0x50u8, 0x33].as_slice(), self.width, self.height, self.max_value);
                push_ascii_values(&mut bytes, &self.data);
            },
            Mode::Binary => {
                push_max_header(&mut bytes, [0x50u8, 0x36].as_slice(), self.width, self.height, self.max_value);
                push_scaled_values(&mut bytes, &self.data, self.max_value);
            },
        }
        proof {
            assert(seq![0x50u8, 0x33] =~= [0x50u8, 0x33]@);
            assert(seq![0x50u8, 0x36] =~= [0x50u8, 0x36]@);
        }
        bytes
    }
}

} // verus!

use vstd::prelude::*;

use crate::bytes::{decimal, extend, push_decimal};
use crate::Serializable;

verus! {

/// What the tuples of a PAM file hold.
#[derive(Debug, PartialEq, Eq, Clone, Copy, Structural)]
pub enum TupleType {
    BlackAndWhite,
    GrayScale,
    RGB,
    BlackAndWhiteAlpha,
    GrayScaleAlpha,
    RGBAlpha,
}

impl TupleType {
    /// Values per tuple.
    pub open spec fn depth(&self) -> u8 {
        match *self {
            TupleType::BlackAndWhite | TupleType::GrayScale => 1u8,
            TupleType::BlackAndWhiteAlpha | TupleType::GrayScaleAlpha => 2u8,
            TupleType::RGB => 3u8,
            TupleType::RGBAlpha => 4u8,
        }
    }

    /// The MAXVAL written for this type.
    pub open spec fn max_value(&self) -> u16 {
        match *self {
            TupleType::BlackAndWhite | TupleType::BlackAndWhiteAlpha => 1u16,
            _ => 256u16,
        }
    }

    /// Values per tuple.
    pub fn to_depth(&self) -> (r: u8)
        ensures
            r == self.depth(),
    {
        match self {
            TupleType::BlackAndWhite | TupleType::GrayScale => 1,
            TupleType::BlackAndWhiteAlpha | TupleType::GrayScaleAlpha => 2,
            TupleType::RGB => 3,
            TupleType::RGBAlpha => 4,
        }
    }

    /// The MAXVAL written for this type.
    pub fn to_max_value(&self) -> (r: u16)
        ensures
            r == self.max_value(),
    {
        match self {
            TupleType::BlackAndWhite | TupleType::BlackAndWhiteAlpha => 1,
            TupleType::GrayScale
            | TupleType::GrayScaleAlpha
            | TupleType::RGB
            | TupleType::RGBAlpha => 256,
        }
    }

    /// The TUPLETYPE name in ASCII.
    pub open spec fn name(&self) -> Seq<u8> {
        match *self {
            TupleType::BlackAndWhite => seq![0x42u8, 0x4c, 0x41, 0x43, 0x4b, 0x41, 0x4e, 0x44, 0x57, 0x48, 0x49, 0x54, 0x45],
            TupleType::GrayScale => seq![0x47u8, 0x52, 0x41, 0x59, 0x53, 0x43, 0x41, 0x4c, 0x45],
            TupleType::RGB => seq![0x52u8, 0x47, 0x42],
            TupleType::BlackAndWhiteAlpha => seq![0x42u8, 0x4c, 0x41, 0x43, 0x4b, 0x41, 0x4e, 0x44, 0x57, 0x48, 0x49, 0x54, 0x45, 0x5f, 0x41, 0x4c, 0x50, 0x48, 0x41],
            TupleType::GrayScaleAlpha => seq![0x47u8, 0x52, 0x41, 0x59, 0x53, 0x43, 0x41, 0x4c, 0x45, 0x5f, 0x41, 0x4c, 0x50, 0x48, 0x41],
            TupleType::RGBAlpha => seq![0x52u8, 0x47, 0x42, 0x5f, 0x41, 0x4c, 0x50, 0x48, 0x41],
        }
    }

    /// The TUPLETYPE name as ASCII bytes.
    pub fn to_string(&self) -> (r: Vec<u8>)
        ensures
            r@ == self.name(),
    {
        let mut r: Vec<u8> = Vec::new();
        match self {
            TupleType::BlackAndWhite => extend(&mut r, [0x42u8, 0x4c, 0x41, 0x43, 0x4b, 0x41, 0x4e, 0x44, 0x57, 0x48, 0x49, 0x54, 0x45].as_slice()),
            TupleType::GrayScale => extend(&mut r, [0x47u8, 0x52, 0x41, 0x59, 0x53, 0x43, 0x41, 0x4c, 0x45].as_slice()),
            TupleType::RGB => extend(&mut r, [0x52u8, 0x47, 0x42].as_slice()),
            TupleType::BlackAndWhiteAlpha => extend(&mut r, [0x42u8, 0x4c, 0x41, 0x43, 0x4b, 0x41, 0x4e, 0x44, 0x57, 0x48, 0x49, 0x54, 0x45, 0x5f, 0x41, 0x4c, 0x50, 0x48, 0x41].as_slice()),
            TupleType::GrayScaleAlpha => extend(&mut r, [0x47u8, 0x52, 0x41, 0x59, 0x53, 0x43, 0x41, 0x4c, 0x45, 0x5f, 0x41, 0x4c, 0x50, 0x48, 0x41].as_slice()),
            TupleType::RGBAlpha => extend(&mut r, [0x52u8, 0x47, 0x42, 0x5f, 0x41, 0x4c, 0x50, 0x48, 0x41].as_slice()),
        }
        proof {
            assert(seq![0x42u8, 0x4c, 0x41, 0x43, 0x4b, 0x41, 0x4e, 0x44, 0x57, 0x48, 0x49, 0x54, 0x45] =~= [0x42u8, 0x4c, 0x41, 0x43, 0x4b, 0x41, 0x4e, 0x44, 0x57, 0x48, 0x49, 0x54, 0x45]@);
            assert(seq![0x47u8, 0x52, 0x41, 0x59, 0x53, 0x43, 0x41, 0x4c, 0x45] =~= [0x47u8, 0x52, 0x41, 0x59, 0x53, 0x43, 0x41, 0x4c, 0x45]@);
            assert(seq![0x52u8, 0x47, 0x42] =~= [0x52u8, 0x47, 0x42]@);
            assert(seq![0x42u8, 0x4c, 0x41, 0x43, 0x4b, 0x41, 0x4e, 0x44, 0x57, 0x48, 0x49, 0x54, 0x45, 0x5f, 0x41, 0x4c, 0x50, 0x48, 0x41] =~= [0x42u8, 0x4c, 0x41, 0x43, 0x4b, 0x41, 0x4e, 0x44, 0x57, 0x48, 0x49, 0x54, 0x45, 0x5f, 0x41, 0x4c, 0x50, 0x48, 0x41]@);
            assert(seq![0x47u8, 0x52, 0x41, 0x59, 0x53, 0x43, 0x41, 0x4c, 0x45, 0x5f, 0x41, 0x4c, 0x50, 0x48, 0x41] =~= [0x47u8, 0x52, 0x41, 0x59, 0x53, 0x43, 0x41, 0x4c, 0x45, 0x5f, 0x41, 0x4c, 0x50, 0x48, 0x41]@);
            assert(seq![0x52u8, 0x47, 0x42, 0x5f, 0x41, 0x4c, 0x50, 0x48, 0x41] =~= [0x52u8, 0x47, 0x42, 0x5f, 0x41, 0x4c, 0x50, 0x48, 0x41]@);
        }
        r
    }
}

/// A PAM image: `width`×`height` tuples of `depth` values each.
pub struct PAM {
    pub width: u32,
    pub height: u32,
    pub depth: u8,
    pub max_value: u16,
    pub tuple_type: TupleType,
    pub data: Vec<u8>,
}

/// The header "P7", then WIDTH, HEIGHT, DEPTH, MAXVAL and TUPLETYPE lines, then "ENDHDR".
pub open spec fn pam_header(width: u32, height: u32, depth: u8, max_value: u16, name: Seq<u8>) -> Seq<u8> {
    seq![0x50u8, 0x37, 0x0a, 0x57, 0x49, 0x44, 0x54, 0x48, 0x20] + decimal(width as nat) + seq![0x0au8, 0x48, 0x45, 0x49, 0x47, 0x48, 0x54, 0x20] + decimal(height as nat) + seq![0x0au8, 0x44, 0x45, 0x50, 0x54, 0x48, 0x20]
        + decimal(depth as nat) + seq![0x0au8, 0x4d, 0x41, 0x58, 0x56, 0x41, 0x4c, 0x20] + decimal(max_value as nat) + seq![0x0au8, 0x54, 0x55, 0x50, 0x4c, 0x45, 0x54, 0x59, 0x50, 0x45, 0x20] + name
        + seq![0x0au8, 0x45, 0x4e, 0x44, 0x48, 0x44, 0x52, 0x0a]
}

impl PAM {
    pub fn new(mode: TupleType, width: u32, height: u32, data: &Vec<u8>) -> (r: Self)
        ensures
            r.width == width,
            r.height == height,
            r.depth == mode.depth(),
            r.max_value == mode.max_value(),
            r.tuple_type == mode,
            r.data@ == data@,
    {
        PAM {
            width,
            height,
            depth: mode.to_depth(),
            max_value: mode.to_max_value(),
            tuple_type: mode,
            data: data.clone(),
        }
    }
}

impl Serializable for PAM {
    fn get_bytes(&self) -> (r: Vec<u8>)
        ensures
            r@ == pam_header(
                self.width,
                self.height,
                self.depth,
                self.max_value,
                self.tuple_type.name(),
            ) + self.data@,
    {
        let mut bytes: Vec<u8> = Vec::new();
        extend(&mut bytes, [0x50u8, 0x37, 0x0a, 0x57, 0x49, 0x44, 0x54, 0x48, 0x20].as_slice());
        push_decimal(&mut bytes, self.width);
        extend(&mut bytes, [0x0au8, 0x48, 0x45, 0x49, 0x47, 0x48, 0x54, 0x20].as_slice());
        push_decimal(&mut bytes, self.height);
        extend(&mut bytes, [0x0au8, 0x44, 0x45, 0x50, 0x54, 0x48, 0x20].as_slice());
        push_decimal(&mut bytes, self.depth as u32);
        extend(&mut bytes, [0x0au8, 0x4d, 0x41, 0x58, 0x56, 0x41, 0x4c, 0x20].as_slice());
        push_decimal(&mut bytes, self.max_value as u32);
        extend(&mut bytes, [0x0au8, 0x54, 0x55, 0x50, 0x4c, 0x45, 0x54, 0x59, 0x50, 0x45, 0x20].as_slice());
        let name = self.tuple_type.to_string();
        extend(&mut bytes, name.as_slice());
        extend(&mut bytes, [0x0au8, 0x45, 0x4e, 0x44, 0x48, 0x44, 0x52, 0x0a].as_slice());
        extend(&mut bytes, self.data.as_slice());
        proof {
            assert(seq![0x50u8, 0x37, 0x0a, 0x57, 0x49, 0x44, 0x54, 0x48, 0x20] =~= [0x50u8, 0x37, 0x0a, 0x57, 0x49, 0x44, 0x54, 0x48, 0x20]@);
            assert(seq![0x0au8, 0x48, 0x45, 0x49, 0x47, 0x48, 0x54, 0x20] =~= [0x0au8, 0x48, 0x45, 0x49, 0x47, 0x48, 0x54, 0x20]@);
            assert(seq![0x0au8, 0x44, 0x45, 0x50, 0x54, 0x48, 0x20] =~= [0x0au8, 0x44, 0x45, 0x50, 0x54, 0x48, 0x20]@);
            assert(seq![0x0au8, 0x4d, 0x41, 0x58, 0x56, 0x41, 0x4c, 0x20] =~= [0x0au8, 0x4d, 0x41, 0x58, 0x56, 0x41, 0x4c, 0x20]@);
            assert(seq![0x0au8, 0x54, 0x55, 0x50, 0x4c, 0x45, 0x54, 0x59, 0x50, 0x45, 0x20] =~= [0x0au8, 0x54, 0x55, 0x50, 0x4c, 0x45, 0x54, 0x59, 0x50, 0x45, 0x20]@);
            assert(seq![0x0au8, 0x45, 0x4e, 0x44, 0x48, 0x44, 0x52, 0x0a] =~= [0x0au8, 0x45, 0x4e, 0x44, 0x48, 0x44, 0x52, 0x0a]@);
            assert(bytes@ =~= pam_header(
                self.width,
                self.height,
                self.depth,
                self.max_value,
                self.tuple_type.name(),
            ) + self.data@);
        }
        bytes
    }
}

} // verus!

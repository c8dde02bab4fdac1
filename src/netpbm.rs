pub mod pam;
pub mod pbm;
pub mod pgm;
pub mod ppm;
pub mod utils;

use vstd::prelude::*;

use crate::bytes::{decimal, extend, push_decimal};

verus! {

/// Plain (ASCII) or raw (binary) pixel data.
#[derive(Debug, PartialEq, Eq, Clone, Copy, Structural)]
pub enum Mode {
    Ascii,
    Binary,
}

/// The header "`magic`\n`width` `height`\n".
pub open spec fn size_header(magic: Seq<u8>, width: u32, height: u32) -> Seq<u8> {
    magic + seq![0x0au8] + decimal(width as nat) + seq![0x20u8] + decimal(height as nat) + seq![
        0x0au8,
    ]
}

/// The header "`magic`\n`width` `height`\n`max_value`\n".
pub open spec fn max_header(magic: Seq<u8>, width: u32, height: u32, max_value: u8) -> Seq<u8> {
    size_header(magic, width, height) + decimal(max_value as nat) + seq![0x0au8]
}

/// Each value in decimal followed by a space.
pub open spec fn ascii_values(values: Seq<u8>) -> Seq<u8>
    decreases values.len(),
{
    if values.len() == 0 {
        Seq::empty()
    } else {
        ascii_values(values.drop_last()) + decimal(values.last() as nat) + seq![0x20u8]
    }
}

/// Each value multiplied by `256 / (max_value + 1)`, spreading `0..=max_value` over the
/// byte range (the product taken modulo 256).
pub open spec fn scaled_values(values: Seq<u8>, max_value: u8) -> Seq<u8> {
    Seq::new(values.len(), |i: int| ((values[i] * (256int / (max_value + 1))) % 256) as u8)
}

pub fn push_size_header(out: &mut Vec<u8>, magic: &[u8], width: u32, height: u32)
    ensures
        final(out)@ == old(out)@ + size_header(magic@, width, height),
{
    extend(out, magic);
    out.push(0x0a);
    push_decimal(out, width);
    out.push(0x20);
    push_decimal(out, height);
    out.push(0x0a);
    proof {
        assert(final(out)@ =~= old(out)@ + size_header(magic@, width, height));
    }
}

pub fn push_max_header(out: &mut Vec<u8>, magic: &[u8], width: u32, height: u32, max_value: u8)
    ensures
        final(out)@ == old(out)@ + max_header(magic@, width, height, max_value),
{
    push_size_header(out, magic, width, height);
    push_decimal(out, max_value as u32);
    out.push(0x0a);
    proof {
        assert(final(out)@ =~= old(out)@ + max_header(magic@, width, height, max_value));
    }
}

pub fn push_ascii_values(out: &mut Vec<u8>, values: &Vec<u8>)
    ensures
        final(out)@ == old(out)@ + ascii_values(values@),
{
    let mut i: usize = 0;
    while i < values.len()
        invariant
            i <= values@.len(),
            out@ == old(out)@ + ascii_values(values@.subrange(0, i as int)),
        decreases values@.len() - i,
    {
        push_decimal(out, values[i] as u32);
        out.push(0x20);
        proof {
            let s = values@.subrange(0, i + 1);
            assert(s.drop_last() =~= values@.subrange(0, i as int));
            assert(out@ =~= old(out)@ + ascii_values(s));
        }
        i = i + 1;
    }
    proof {
        assert(values@.subrange(0, values@.len() as int) =~= values@);
    }
}

pub fn push_scaled_values(out: &mut Vec<u8>, values: &Vec<u8>, max_value: u8)
    ensures
        final(out)@ == old(out)@ + scaled_values(values@, max_value),
{
    let factor: u16 = 256 / (max_value as u16 + 1);
    let mut i: usize = 0;
    while i < values.len()
        invariant
            i <= values@.len(),
            factor == 256int / (max_value + 1),
            factor <= 256,
            out@ == old(out)@ + scaled_values(values@, max_value).subrange(0, i as int),
        decreases values@.len() - i,
    {
        let x = values[i] as u32;
        assert(x * (factor as u32) <= 65280) by (nonlinear_arith)
            requires
                x <= 255,
                factor <= 256,
        ;
        let v = ((x * factor as u32) % 256) as u8;
        out.push(v);
        i = i + 1;
        proof {
            assert(out@ =~= old(out)@ + scaled_values(values@, max_value).subrange(0, i as int));
        }
    }
    proof {
        assert(scaled_values(values@, max_value).subrange(0, values@.len() as int) =~= scaled_values(
            values@,
            max_value,
        ));
    }
}

} // verus!

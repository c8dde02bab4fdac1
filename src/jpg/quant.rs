use vstd::prelude::*;

use super::jpeg::Mode;

verus! {

/// An 8×8 quantization table, row by row; a JPEG file stores it in this order and reads
/// entry `i` as the divisor of the `i`-th coefficient in zig-zag order.
pub type QuantTable = [[u8; 8]; 8];

pub const LUMINANCE_QUANT_BASE: QuantTable = [
    [16, 11, 12, 14, 12, 10, 16, 14],
    [13, 14, 18, 17, 16, 19, 24, 40],
    [26, 24, 22, 22, 24, 49, 35, 37],
    [29, 40, 58, 51, 61, 60, 57, 51],
    [56, 55, 64, 72, 92, 78, 64, 68],
    [87, 69, 55, 56, 80, 109, 81, 87],
    [95, 98, 103, 104, 103, 62, 77, 113],
    [121, 112, 100, 120, 92, 101, 103, 99],
];

pub const CHROMINANCE_QUANT_BASE: QuantTable = [
    [17, 18, 18, 24, 21, 24, 47, 26],
    [26, 47, 99, 66, 56, 66, 99, 99],
    [99, 99, 99, 99, 99, 99, 99, 99],
    [99, 99, 99, 99, 99, 99, 99, 99],
    [99, 99, 99, 99, 99, 99, 99, 99],
    [99, 99, 99, 99, 99, 99, 99, 99],
    [99, 99, 99, 99, 99, 99, 99, 99],
    [99, 99, 99, 99, 99, 99, 99, 99],
];

/// The unscaled table of a plane.
pub open spec fn base_table(mode: Mode) -> QuantTable {
    match mode {
        Mode::Luminance => LUMINANCE_QUANT_BASE,
        Mode::Chromiance => CHROMINANCE_QUANT_BASE,
    }
}

/// The table in use for a plane: every entry of the base table halved, rounding up.
pub open spec fn scaled_entry(mode: Mode, y: int, x: int) -> int {
    (base_table(mode)[y][x] + 1) / 2
}

/// Halves every entry of the table, rounding up.
pub fn prescale_quant_table(quant_table: &mut QuantTable)
    ensures
        forall|y: int, x: int|
            0 <= y < 8 && 0 <= x < 8 ==> #[trigger] final(quant_table)[y][x] == (old(
                quant_table,
            )[y][x] + 1) / 2,
{
    let mut y: usize = 0;
    while y < 8
        invariant
            y <= 8,
            forall|r: int, x: int|
                0 <= r < y && 0 <= x < 8 ==> #[trigger] quant_table[r][x] == (old(
                    quant_table,
                )[r][x] + 1) / 2,
            forall|r: int| y <= r < 8 ==> #[trigger] quant_table[r] == old(quant_table)[r],
        decreases 8 - y,
    {
        let mut row = quant_table[y];
        let ghost old_row = row;
        let mut x: usize = 0;
        while x < 8
            invariant
                x <= 8,
                forall|c: int| 0 <= c < x ==> #[trigger] row[c] == (old_row[c] + 1) / 2,
                forall|c: int| x <= c < 8 ==> #[trigger] row[c] == old_row[c],
            decreases 8 - x,
        {
            row[x] = ((row[x] as u16 + 1) / 2) as u8;
            x = x + 1;
        }
        quant_table[y] = row;
        y = y + 1;
    }
}

/// The scaled quantization table of a plane.
pub fn quant_table(mode: Mode) -> (r: QuantTable)
    ensures
        forall|y: int, x: int|
            0 <= y < 8 && 0 <= x < 8 ==> #[trigger] r[y][x] == scaled_entry(mode, y, x),
{
    let mut table = match mode {
        Mode::Luminance => LUMINANCE_QUANT_BASE,
        Mode::Chromiance => CHROMINANCE_QUANT_BASE,
    };
    prescale_quant_table(&mut table);
    table
}

} // verus!

//! A fixed-width 8x8 bitmap font.
//!
//! Each glyph is one 64-bit word: the most significant byte is the top
//! pixel row, and within a row the most significant bit is the leftmost
//! column.  Only the characters the driver renders have shapes; every
//! other byte maps to a blank glyph.

use vstd::prelude::*;

verus! {

/// Glyph cell width in pixels.
pub const FONT_W: u8 = 8;

/// Glyph cell height in pixels.
pub const FONT_H: u8 = 8;

/// The bitmap of the glyph for byte `c`, top row in the top byte.
pub open spec fn spec_glyph(c: u8) -> u64 {
    match c {
        33u8 => 0x1818181818001800,
        48u8 => 0x3c666e7666663c00,
        49u8 => 0x1838181818187e00,
        50u8 => 0x3c66060c18307e00,
        51u8 => 0x3c66061c06663c00,
        52u8 => 0x0c1c3c6c7e0c0c00,
        53u8 => 0x7e607c0606663c00,
        54u8 => 0x1c30607c66663c00,
        55u8 => 0x7e060c1830303000,
        56u8 => 0x3c66663c66663c00,
        57u8 => 0x3c66663e060c3800,
        58u8 => 0x0018180018180000,
        72u8 => 0x6666667e66666600,
        82u8 => 0x7c66667c6c666600,
        99u8 => 0x00003c6660663c00,
        100u8 => 0x06063e6666663e00,
        101u8 => 0x00003c667e603c00,
        108u8 => 0x3818181818183c00,
        110u8 => 0x00007c6666666600,
        111u8 => 0x00003c6666663c00,
        114u8 => 0x00006c7660606000,
        115u8 => 0x00003e603c067c00,
        116u8 => 0x18187e1818180e00,
        117u8 => 0x0000666666663e00,
        119u8 => 0x0000636b6b6b3600,
        _ => 0x0000000000000000,
    }
}

/// True when the pixel at `row`, `col` of glyph `g` is set.
pub open spec fn spec_glyph_bit(g: u64, row: int, col: int) -> bool
    recommends
        0 <= row < 8,
        0 <= col < 8,
{
    (g >> (((7 - row) * 8 + (7 - col)) as u64)) & 1 == 1
}

/// The bitmap of the glyph for byte `c`.
pub fn glyph(c: u8) -> (g: u64)
    ensures
        g == spec_glyph(c),
{
    match c {
        33u8 => 0x1818181818001800,
        48u8 => 0x3c666e7666663c00,
        49u8 => 0x1838181818187e00,
        50u8 => 0x3c66060c18307e00,
        51u8 => 0x3c66061c06663c00,
        52u8 => 0x0c1c3c6c7e0c0c00,
        53u8 => 0x7e607c0606663c00,
        54u8 => 0x1c30607c66663c00,
        55u8 => 0x7e060c1830303000,
        56u8 => 0x3c66663c66663c00,
        57u8 => 0x3c66663e060c3800,
        58u8 => 0x0018180018180000,
        72u8 => 0x6666667e66666600,
        82u8 => 0x7c66667c6c666600,
        99u8 => 0x00003c6660663c00,
        100u8 => 0x06063e6666663e00,
        101u8 => 0x00003c667e603c00,
        108u8 => 0x3818181818183c00,
        110u8 => 0x00007c6666666600,
        111u8 => 0x00003c6666663c00,
        114u8 => 0x00006c7660606000,
        115u8 => 0x00003e603c067c00,
        116u8 => 0x18187e1818180e00,
        117u8 => 0x0000666666663e00,
        119u8 => 0x0000636b6b6b3600,
        _ => 0x0000000000000000,
    }
}

/// True when the pixel at `row`, `col` of glyph `g` is set.
pub fn glyph_bit(g: u64, row: u8, col: u8) -> (on: bool)
    requires
        row < 8,
        col < 8,
    ensures
        on == spec_glyph_bit(g, row as int, col as int),
{
    let shift: u64 = ((7 - row) as u64) * 8 + (7 - col) as u64;
    (g >> shift) & 1 == 1
}

} // verus!

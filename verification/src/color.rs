//! Packed 16-bit pixel color: 5 bits red, 6 bits green, 5 bits blue.

use vstd::prelude::*;

verus! {

/// A pixel color as the controller encodes it on the wire: three channels,
/// red and blue 5 bits wide, green 6 bits wide.
#[derive(Clone, Copy, Debug, PartialEq, Eq, Structural)]
pub struct Rgb565 {
    pub r5: u8,
    pub g6: u8,
    pub b5: u8,
}

impl Rgb565 {
    /// Channel values never exceed their bit width.
    pub open spec fn wf(self) -> bool {
        self.r5 < 32 && self.g6 < 64 && self.b5 < 32
    }

    /// The packed 16-bit word: red in the top 5 bits, then green, then blue.
    pub open spec fn word(self) -> int {
        self.r5 * 2048 + self.g6 * 32 + self.b5
    }

    /// First byte sent on the wire (most significant byte of the word).
    pub open spec fn hi_byte(self) -> u8 {
        (self.word() / 256) as u8
    }

    /// Second byte sent on the wire (least significant byte of the word).
    pub open spec fn lo_byte(self) -> u8 {
        (self.word() % 256) as u8
    }

    /// Builds a color from full 8-bit channels; each channel is truncated
    /// to its wire width.
    pub fn new(r: u8, g: u8, b: u8) -> (c: Rgb565)
        ensures
            c.wf(),
            c.r5 == r / 8,
            c.g6 == g / 4,
            c.b5 == b / 8,
    {
        Rgb565 { r5: r / 8, g6: g / 4, b5: b / 8 }
    }

    /// The two bytes of the wire encoding, most significant first.
    pub fn to_bytes(self) -> (bytes: (u8, u8))
        requires
            self.wf(),
        ensures
            bytes.0 == self.hi_byte(),
            bytes.1 == self.lo_byte(),
    {
        let w: u16 = self.r5 as u16 * 2048 + self.g6 as u16 * 32 + self.b5 as u16;
        ((w / 256) as u8, (w % 256) as u8)
    }

    pub fn black() -> (c: Rgb565)
        ensures
            c.wf(),
            c == (Rgb565 { r5: 0, g6: 0, b5: 0 }),
    {
        Rgb565 { r5: 0, g6: 0, b5: 0 }
    }

    pub fn blue() -> (c: Rgb565)
        ensures
            c.wf(),
            c == (Rgb565 { r5: 0, g6: 0, b5: 31 }),
    {
        Rgb565 { r5: 0, g6: 0, b5: 31 }
    }

    pub fn red() -> (c: Rgb565)
        ensures
            c.wf(),
            c == (Rgb565 { r5: 31, g6: 0, b5: 0 }),
    {
        Rgb565 { r5: 31, g6: 0, b5: 0 }
    }

    pub fn white() -> (c: Rgb565)
        ensures
            c.wf(),
            c == (Rgb565 { r5: 31, g6: 63, b5: 31 }),
    {
        Rgb565 { r5: 31, g6: 63, b5: 31 }
    }
}

} // verus!

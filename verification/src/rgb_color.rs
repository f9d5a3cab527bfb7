use vstd::prelude::*;

verus! {

/// A 24-bit colour, one byte per channel.
#[derive(Debug, Clone, Copy, PartialEq, Eq, Structural, Hash)]
pub struct RgbColor {
    pub red: u8,
    pub green: u8,
    pub blue: u8,
}

/// The colour `0xRRGGBB` unpacks to, ignoring bits above the low 24.
pub open spec fn packed_rgb(packed: int) -> RgbColor {
    RgbColor {
        red: ((packed / 65536) % 256) as u8,
        green: ((packed / 256) % 256) as u8,
        blue: (packed % 256) as u8,
    }
}

impl RgbColor {
    pub fn new(red: u8, green: u8, blue: u8) -> (color: RgbColor)
        ensures
            color == (RgbColor { red, green, blue }),
    {
        RgbColor { red, green, blue }
    }

    /// Unpacks `0xRRGGBB`. Bits above the low 24 are ignored.
    pub fn from_packed(packed: u32) -> (color: RgbColor)
        ensures
            color.red == (packed / 65536) % 256,
            color.green == (packed / 256) % 256,
            color.blue == packed % 256,
    {
        RgbColor {
            red: ((packed / 65536) % 256) as u8,
            green: ((packed / 256) % 256) as u8,
            blue: (packed % 256) as u8,
        }
    }

    /// The colour packed as `0xRRGGBB`.
    pub fn packed(self) -> (packed: u32)
        ensures
            packed == self.red * 65536 + self.green * 256 + self.blue,
    {
        (self.red as u32) * 65536 + (self.green as u32) * 256 + (self.blue as u32)
    }
}

} // verus!

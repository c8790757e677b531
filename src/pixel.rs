//! Pixels, colors and their luminance.
use vstd::prelude::*;

verus! {

/// One RGBA pixel, eight bits per channel.
#[derive(Clone, Copy, Debug, PartialEq, Eq, Structural)]
pub struct Pixel {
    pub r: u8,
    pub g: u8,
    pub b: u8,
    pub a: u8,
}

/// One RGB color of a palette.
#[derive(Clone, Copy, Debug, PartialEq, Eq, Structural)]
pub struct Color {
    pub r: u8,
    pub g: u8,
    pub b: u8,
}

/// Weighted brightness `0.299 R + 0.587 G + 0.114 B`, truncated to an integer.
pub open spec fn luma(r: u8, g: u8, b: u8) -> int {
    (299 * r + 587 * g + 114 * b) / 1000
}

/// Luminance of a pixel; its alpha channel plays no part.
pub open spec fn pixel_luma(p: Pixel) -> int {
    luma(p.r, p.g, p.b)
}

/// The opaque pixel that shows color `c`.
pub open spec fn opaque(c: Color) -> Pixel {
    Pixel { r: c.r, g: c.g, b: c.b, a: 255 }
}

impl Pixel {
    /// Builds a pixel from its four channels.
    pub fn new(r: u8, g: u8, b: u8, a: u8) -> (p: Pixel)
        ensures
            p == (Pixel { r, g, b, a }),
    {
        Pixel { r, g, b, a }
    }

    /// The opaque pixel of a palette color.
    pub fn from_color(c: Color) -> (p: Pixel)
        ensures
            p == opaque(c),
    {
        Pixel { r: c.r, g: c.g, b: c.b, a: 255 }
    }
}

impl Color {
    /// Builds a color from its three channels.
    pub fn new(r: u8, g: u8, b: u8) -> (c: Color)
        ensures
            c == (Color { r, g, b }),
    {
        Color { r, g, b }
    }
}

/// Luminance of a pixel, `0.299 R + 0.587 G + 0.114 B` truncated to eight bits.
pub fn luminance(p: Pixel) -> (l: u8)
    ensures
        l as int == pixel_luma(p),
{
    let sum: u32 = 299 * (p.r as u32) + 587 * (p.g as u32) + 114 * (p.b as u32);
    assert(sum <= 255000);
    (sum / 1000) as u8
}

} // verus!

//! Colours with one byte per channel.

use vstd::prelude::*;

verus! {

/// An opaque colour; each channel runs from 0 (dark) to 255 (full).
#[derive(Clone, Copy, Debug, PartialEq, Eq, Structural)]
pub struct Color {
    pub r: u8,
    pub g: u8,
    pub b: u8,
}

impl Color {
    pub fn new(r: u8, g: u8, b: u8) -> (c: Self)
        ensures
            c.r == r,
            c.g == g,
            c.b == b,
    {
        Self { r, g, b }
    }
}

pub fn white() -> (c: Color)
    ensures
        c == (Color { r: 255, g: 255, b: 255 }),
{
    Color { r: 255, g: 255, b: 255 }
}

pub fn light_gray() -> (c: Color)
    ensures
        c == (Color { r: 64, g: 64, b: 64 }),
{
    Color { r: 64, g: 64, b: 64 }
}

pub fn gray() -> (c: Color)
    ensures
        c == (Color { r: 127, g: 127, b: 127 }),
{
    Color { r: 127, g: 127, b: 127 }
}

pub fn dark_gray() -> (c: Color)
    ensures
        c == (Color { r: 191, g: 191, b: 191 }),
{
    Color { r: 191, g: 191, b: 191 }
}

pub fn black() -> (c: Color)
    ensures
        c == (Color { r: 0, g: 0, b: 0 }),
{
    Color { r: 0, g: 0, b: 0 }
}

pub fn red() -> (c: Color)
    ensures
        c == (Color { r: 255, g: 0, b: 0 }),
{
    Color { r: 255, g: 0, b: 0 }
}

pub fn green() -> (c: Color)
    ensures
        c == (Color { r: 0, g: 255, b: 0 }),
{
    Color { r: 0, g: 255, b: 0 }
}

pub fn blue() -> (c: Color)
    ensures
        c == (Color { r: 0, g: 0, b: 255 }),
{
    Color { r: 0, g: 0, b: 255 }
}

} // verus!

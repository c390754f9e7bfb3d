use vstd::prelude::*;

verus! {

/// An 8-bit-per-channel color with premultiplied alpha.
#[derive(Clone, Copy, Debug, PartialEq, Eq, Structural)]
pub struct Rgba {
    pub r: u8,
    pub g: u8,
    pub b: u8,
    pub a: u8,
}

impl Rgba {
    /// The four channels in storage order.
    pub open spec fn view(self) -> (u8, u8, u8, u8) {
        (self.r, self.g, self.b, self.a)
    }

    /// An opaque color.
    pub fn from_rgb(r: u8, g: u8, b: u8) -> (c: Rgba)
        ensures
            c == (Rgba { r, g, b, a: 255 }),
    {
        Rgba { r, g, b, a: 255 }
    }
}

/// Pure red, the circle's initial color.
pub fn default_color() -> (c: Rgba)
    ensures
        c == (Rgba { r: 255, g: 0, b: 0, a: 255 }),
{
    Rgba::from_rgb(255, 0, 0)
}

/// Mid gray, the canvas background.
pub fn default_background_color() -> (c: Rgba)
    ensures
        c == (Rgba { r: 160, g: 160, b: 160, a: 255 }),
{
    Rgba::from_rgb(160, 160, 160)
}

} // verus!

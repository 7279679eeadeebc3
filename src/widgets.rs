use vstd::prelude::*;

verus! {

/// The kinds of widget the interface shows.
#[derive(Debug, Clone, Copy, PartialEq, Eq, Structural)]
pub enum WidgetKind {
    TestButton,
    Slider,
}

/// The colour channel a slider controls.
#[derive(Debug, Clone, Copy, PartialEq, Eq, Structural)]
pub enum ColorType {
    Red,
    Green,
    Blue,
    Alpha,
}

/// An RGBA colour.
#[derive(Debug, Clone, Copy, PartialEq, Eq, Structural)]
pub struct Rgba {
    pub r: u8,
    pub g: u8,
    pub b: u8,
    pub a: u8,
}

impl Rgba {
    /// The opaque colour of the given channels.
    pub fn rgb(r: u8, g: u8, b: u8) -> (c: Rgba)
        ensures
            c == (Rgba { r, g, b, a: 255 }),
    {
        Rgba { r, g, b, a: 255 }
    }
}

/// A slider set to `value` acting on `color`.  A colour slider sets the two
/// other colour channels to `value`, so that the lower the value, the purer
/// its own channel shows; the alpha slider sets the alpha channel.
pub fn apply_slider_value(color: Rgba, kind: ColorType, value: u8) -> (r: Rgba)
    ensures
        r == match kind {
            ColorType::Red => Rgba { g: value, b: value, ..color },
            ColorType::Green => Rgba { r: value, b: value, ..color },
            ColorType::Blue => Rgba { r: value, g: value, ..color },
            ColorType::Alpha => Rgba { a: value, ..color },
        },
{
    let mut c = color;
    match kind {
        ColorType::Red => {
            c.g = value;
            c.b = value;
        },
        ColorType::Green => {
            c.r = value;
            c.b = value;
        },
        ColorType::Blue => {
            c.g = value;
            c.r = value;
        },
        ColorType::Alpha => {
            c.a = value;
        },
    }
    c
}

} // verus!

//! The color types of images.

use vstd::prelude::*;

verus! {

/// How the pixels of an image are laid out; the number is the bit depth of
/// each channel.
#[derive(Debug, Clone, Copy, PartialEq, Eq, Structural)]
pub enum ColorType {
    /// Each pixel is a gray level.
    Grey(u8),
    /// Each pixel is red, green and blue.
    RGB(u8),
    /// Each pixel is an index into a palette of colors.
    Palette(u8),
    /// Each pixel is a gray level and an alpha value.
    GreyA(u8),
    /// Each pixel is red, green, blue and an alpha value.
    RGBA(u8),
}

/// The number of bits of a pixel.
pub fn bits_per_pixel(c: ColorType) -> (r: usize)
    ensures
        r == match c {
            ColorType::Grey(n) => n as int,
            ColorType::RGB(n) => 3 * n,
            ColorType::Palette(n) => 3 * n,
            ColorType::GreyA(n) => 2 * n,
            ColorType::RGBA(n) => 4 * n,
        },
{
    match c {
        ColorType::Grey(n) => n as usize,
        ColorType::RGB(n) => 3 * (n as usize),
        ColorType::Palette(n) => 3 * (n as usize),
        ColorType::GreyA(n) => 2 * (n as usize),
        ColorType::RGBA(n) => 4 * (n as usize),
    }
}

/// The number of channels of a pixel.
pub fn num_components(c: ColorType) -> (r: usize)
    ensures
        r == match c {
            ColorType::Grey(_) => 1int,
            ColorType::RGB(_) => 3,
            ColorType::Palette(_) => 3,
            ColorType::GreyA(_) => 2,
            ColorType::RGBA(_) => 4,
        },
{
    match c {
        ColorType::Grey(_) => 1,
        ColorType::RGB(_) => 3,
        ColorType::Palette(_) => 3,
        ColorType::GreyA(_) => 2,
        ColorType::RGBA(_) => 4,
    }
}

} // verus!

//! Reduction of a pixel's colour to one brightness value.
use vstd::prelude::*;

verus! {

/// How a pixel's colour is reduced to one brightness in `0..=255`.
#[derive(Debug, Clone, Copy, PartialEq, Eq, Structural)]
pub enum GrayScaleMode {
    /// `0.2126 R + 0.7152 G + 0.0722 B`, rounded half up.
    Luminance,
    /// `(R + G + B) / 3`, rounded down.
    Average,
}

pub open spec fn brightness_of(r: u8, g: u8, b: u8, mode: GrayScaleMode) -> u16 {
    match mode {
        GrayScaleMode::Luminance => ((2126 * r + 7152 * g + 722 * b + 5000) / 10000) as u16,
        GrayScaleMode::Average => ((r + g + b) / 3) as u16,
    }
}

pub fn compute_brightness(rgb: [u8; 3], mode: GrayScaleMode) -> (r: u16)
    ensures
        r == brightness_of(rgb[0], rgb[1], rgb[2], mode),
        r <= 255,
{
    let (red, green, blue) = (rgb[0] as u32, rgb[1] as u32, rgb[2] as u32);
    match mode {
        GrayScaleMode::Luminance => ((2126 * red + 7152 * green + 722 * blue + 5000) / 10000) as u16,
        GrayScaleMode::Average => ((red + green + blue) / 3) as u16,
    }
}

} // verus!

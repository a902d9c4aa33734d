use vstd::prelude::*;

verus! {

/// One RGBA pixel with 8-bit channels. Whether the color channels are
/// premultiplied by alpha is a convention of the buffer holding the pixel.
#[derive(Clone, Copy, PartialEq, Eq, Structural, Debug)]
pub struct Pixel {
    pub r: u8,
    pub g: u8,
    pub b: u8,
    pub a: u8,
}

pub open spec fn white() -> Pixel {
    Pixel { r: 255, g: 255, b: 255, a: 255 }
}

pub open spec fn black() -> Pixel {
    Pixel { r: 0, g: 0, b: 0, a: 255 }
}

pub open spec fn transparent() -> Pixel {
    Pixel { r: 0, g: 0, b: 0, a: 0 }
}

/// Thin one-unit grid lines are drawn in this gray.
pub open spec fn grid_thin() -> Pixel {
    Pixel { r: 128, g: 128, b: 128, a: 255 }
}

/// Thick ten-unit grid lines are drawn in this darker gray.
pub open spec fn grid_thick() -> Pixel {
    Pixel { r: 64, g: 64, b: 64, a: 255 }
}

impl Pixel {
    pub fn new(r: u8, g: u8, b: u8, a: u8) -> (p: Pixel)
        ensures
            p == (Pixel { r, g, b, a }),
    {
        Pixel { r, g, b, a }
    }
}

/// Relative luminance of a straight-alpha pixel, scaled by 10000 * 255:
/// the usual Rec.-709-style weighted sum of the color channels.
pub open spec fn luminance_scaled(p: Pixel) -> int {
    2126 * p.r + 7152 * p.g + 722 * p.b
}

/// The ink color that contrasts with a background pixel: black over light
/// backgrounds (relative luminance above 0.2), white over dark ones.
pub open spec fn contrast_ink(background: Pixel) -> Pixel {
    if luminance_scaled(background) > 510000 {
        black()
    } else {
        white()
    }
}

/// Picks black or white ink so that a symbol stays readable over `background`.
pub fn contrast_ink_for(background: Pixel) -> (ink: Pixel)
    ensures
        ink == contrast_ink(background),
{
    let lum: u32 = 2126 * (background.r as u32) + 7152 * (background.g as u32) + 722 * (background.b
        as u32);
    if lum > 510000 {
        Pixel::new(0, 0, 0, 255)
    } else {
        Pixel::new(255, 255, 255, 255)
    }
}

} // verus!

use vstd::prelude::*;

verus! {

/// Weight of the red channel, in ten-thousandths (0.2126).
pub const RED_WEIGHT: u32 = 2126;

/// Weight of the green channel, in ten-thousandths (0.7152).
pub const GREEN_WEIGHT: u32 = 7152;

/// Weight of the blue channel, in ten-thousandths (0.0722).
pub const BLUE_WEIGHT: u32 = 722;

/// The luminance of pure white. Luminances are integers on a scale where
/// this value stands for 1: the weights sum to 10000, and each channel is
/// counted in steps of 1/255.
pub const LUMIN_MAX: u32 = 2_550_000;

/// Luminance of a pixel with the given channel bytes, scaled by `LUMIN_MAX`:
/// `LUMIN_MAX * (0.2126 * r/255 + 0.7152 * g/255 + 0.0722 * b/255)`.
pub open spec fn lumin_of(r: u8, g: u8, b: u8) -> int {
    2126 * r + 7152 * g + 722 * b
}

/// Luminance of an RGB pixel, as `lumin_of` of its three channels.
pub open spec fn pixel_lumin_spec(pixel: [u8; 3]) -> int {
    lumin_of(pixel[0], pixel[1], pixel[2])
}

/// Figures out the luminance of a pixel, on the scale where `LUMIN_MAX` is 1.
pub fn pixel_lumin(pixel: &[u8; 3]) -> (r: u32)
    ensures
        r == pixel_lumin_spec(*pixel),
        r <= LUMIN_MAX,
{
    let red = pixel[0] as u32;
    let green = pixel[1] as u32;
    let blue = pixel[2] as u32;
    RED_WEIGHT * red + GREEN_WEIGHT * green + BLUE_WEIGHT * blue
}

/// Every pixel's luminance lies between 0 and 1 (`LUMIN_MAX`); black has
/// luminance 0 and white has luminance 1.
pub proof fn lemma_lumin_range(r: u8, g: u8, b: u8)
    ensures
        0 <= lumin_of(r, g, b) <= LUMIN_MAX,
        lumin_of(0, 0, 0) == 0,
        lumin_of(255, 255, 255) == LUMIN_MAX,
{
}

/// Luminance never decreases when any channel grows while the others stay.
pub proof fn lemma_lumin_monotone(r1: u8, g1: u8, b1: u8, r2: u8, g2: u8, b2: u8)
    requires
        r1 <= r2,
        g1 <= g2,
        b1 <= b2,
    ensures
        lumin_of(r1, g1, b1) <= lumin_of(r2, g2, b2),
        lumin_of(r1, g1, b1) <= lumin_of(r2, g1, b1),
        lumin_of(r1, g1, b1) <= lumin_of(r1, g2, b1),
        lumin_of(r1, g1, b1) <= lumin_of(r1, g1, b2),
{
}

} // verus!

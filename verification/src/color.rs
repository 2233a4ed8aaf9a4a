//! Colours: channels, brightness, and the form in which the graphics system takes them.
use vstd::prelude::*;
use crate::geometry::min_of;
use crate::single::{lemma_to_single_keeps, power_of_two, round_single, to_single};

verus! {

/// A brightness that changes nothing, in ticks of `2^-24`.
pub const PLAIN: u32 = 0x100_0000;

/// The brightness of the title bar, 1.08, in ticks of `2^-24`.
pub const TITLE_LIGHT: u32 = 18119394;

/// The brightness of the line under the title, 1.35, in ticks of `2^-24`.
pub const LINE_LIGHT: u32 = 22649242;

/// The brightness of the border, 1.5, in ticks of `2^-24`.
pub const BORDER_LIGHT: u32 = 25165824;

/// A colour as the graphics system takes it: red in the lowest byte, then green, then blue.
pub open spec fn packed(r: int, g: int, b: int) -> int {
    r + 256 * g + 65536 * b
}

/// A colour as the graphics system takes it.
pub fn rgb(r: u8, g: u8, b: u8) -> (c: u32)
    ensures
        c == packed(r as int, g as int, b as int),
{
    r as u32 + 256 * g as u32 + 65536 * b as u32
}

/// The red, the green and the blue of a colour `0xRRGGBB`.
pub open spec fn red(c: int) -> int {
    (c / 65536) % 256
}

pub open spec fn green(c: int) -> int {
    (c / 256) % 256
}

pub open spec fn blue(c: int) -> int {
    c % 256
}

/// A channel made brighter by a factor, in single precision and at most 255.
pub open spec fn brightened(v: int, factor: int) -> int {
    min_of(to_single(v * factor, 1) / 0x100_0000, 255)
}

/// A channel made brighter by a factor.
fn brighten(v: u32, factor: u32) -> (r: u8)
    requires
        v < 256,
    ensures
        r == brightened(v as int, factor as int),
{
    assert(v * factor <= 256 * 0x1_0000_0000) by (nonlinear_arith)
        requires
            v < 256,
            factor < 0x1_0000_0000,
    ;
    let t: u128 = round_single(v as u128 * factor as u128, 1) / 0x100_0000;
    if t < 255 {
        t as u8
    } else {
        255
    }
}

/// The channels of a colour `0xRRGGBB`, each made brighter by a factor in ticks of `2^-24`.
pub fn lighten(c: u32, factor: u32) -> (r: (u8, u8, u8))
    ensures
        r.0 == brightened(red(c as int), factor as int),
        r.1 == brightened(green(c as int), factor as int),
        r.2 == brightened(blue(c as int), factor as int),
{
    (
        brighten((c / 65536) % 256, factor),
        brighten((c / 256) % 256, factor),
        brighten(c % 256, factor),
    )
}

/// A colour made brighter, as the graphics system takes it.
pub open spec fn light_color(c: int, factor: int) -> int {
    packed(
        brightened(red(c), factor),
        brightened(green(c), factor),
        brightened(blue(c), factor),
    )
}

/// A colour made brighter, as the graphics system takes it.
pub fn light_rgb(c: u32, factor: u32) -> (r: u32)
    ensures
        r == light_color(c as int, factor as int),
{
    let (red, green, blue) = lighten(c, factor);
    rgb(red, green, blue)
}

/// The plain brightness keeps a colour as it is.
pub proof fn law_plain_brightness_keeps_colors(v: int)
    requires
        0 <= v < 256,
    ensures
        brightened(v, PLAIN as int) == v,
{
    assert(power_of_two(24) == 0x100_0000) by {
        reveal_with_fuel(power_of_two, 25);
    }
    lemma_to_single_keeps(v, 24);
    assert((v * 0x100_0000) / 0x100_0000 == v);
}

/// A brightness from the plain one on makes no channel darker.
pub proof fn law_light_is_not_darker(v: int, factor: int)
    requires
        0 <= v < 256,
        PLAIN <= factor,
    ensures
        v <= brightened(v, factor) <= 255,
{
    assert(0 <= v * (PLAIN as int) <= v * factor) by (nonlinear_arith)
        requires
            0 <= v,
            0 <= PLAIN <= factor,
    ;
    crate::single::lemma_to_single_monotone(v * (PLAIN as int), v * factor, 1);
    law_plain_brightness_keeps_colors(v);
}

} // verus!

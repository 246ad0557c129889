//! Colours, and how the colours of several signals are laid over one another.

use vstd::prelude::*;

verus! {

/// The largest value of a colour channel.
pub const CHANNEL_MAX: u8 = 255;

/// A colour with red, green, blue and alpha channels of eight bits each.
/// Alpha 0 is fully transparent, alpha 255 fully opaque.
#[derive(Clone, Copy, Debug, PartialEq, Eq, Structural)]
pub struct Rgba {
    pub red: u8,
    pub green: u8,
    pub blue: u8,
    pub alpha: u8,
}

/// The alpha of a layer of alpha `top` over one of alpha `bottom`.
pub open spec fn alpha_over(top: int, bottom: int) -> int {
    top + bottom * (255 - top) / 255
}

/// One colour channel of a layer over another: the two channel values
/// weighted by how much of each layer shows, and 0 where nothing shows.
pub open spec fn channel_over(top: int, top_alpha: int, bottom: int, bottom_alpha: int) -> int {
    let alpha = alpha_over(top_alpha, bottom_alpha);
    if alpha == 0 {
        0
    } else {
        let mixed = (top * top_alpha * 255 + bottom * bottom_alpha * (255 - top_alpha)) / (255
            * alpha);
        if mixed > 255 {
            255
        } else {
            mixed
        }
    }
}

/// Opaque white, the ground on which signal colours are laid.
pub open spec fn white_spec() -> Rgba {
    Rgba { red: 255, green: 255, blue: 255, alpha: 255 }
}

/// Opaque white, the ground on which signal colours are laid.
pub fn rgba_white() -> (white: Rgba)
    ensures
        white == white_spec(),
{
    Rgba { red: 255, green: 255, blue: 255, alpha: 255 }
}

/// The colours laid over white one after the other: the first colour lies
/// directly on the white ground, the last one on top.
pub open spec fn composite(colors: Seq<Rgba>) -> Rgba
    decreases colors.len(),
{
    if colors.len() == 0 {
        white_spec()
    } else {
        colors.last().over_spec(composite(colors.drop_last()))
    }
}

impl Rgba {
    /// This colour laid over `bottom`.
    pub open spec fn over_spec(self, bottom: Rgba) -> Rgba {
        Rgba {
            red: channel_over(
                self.red as int,
                self.alpha as int,
                bottom.red as int,
                bottom.alpha as int,
            ) as u8,
            green: channel_over(
                self.green as int,
                self.alpha as int,
                bottom.green as int,
                bottom.alpha as int,
            ) as u8,
            blue: channel_over(
                self.blue as int,
                self.alpha as int,
                bottom.blue as int,
                bottom.alpha as int,
            ) as u8,
            alpha: alpha_over(self.alpha as int, bottom.alpha as int) as u8,
        }
    }

    /// This colour laid over `bottom`, by the "over" operator of alpha
    /// compositing.
    pub fn over(&self, bottom: &Rgba) -> (mixed: Rgba)
        ensures
            mixed == self.over_spec(*bottom),
    {
        let alpha = over_alpha(self.alpha, bottom.alpha);
        Rgba {
            red: over_channel(self.red, self.alpha, bottom.red, bottom.alpha, alpha),
            green: over_channel(self.green, self.alpha, bottom.green, bottom.alpha, alpha),
            blue: over_channel(self.blue, self.alpha, bottom.blue, bottom.alpha, alpha),
            alpha,
        }
    }
}

/// The alpha of a layer over another.
fn over_alpha(top: u8, bottom: u8) -> (alpha: u8)
    ensures
        alpha == alpha_over(top as int, bottom as int),
{
    let rest: u32 = 255 - top as u32;
    assert(0 <= (bottom as int) * (rest as int) <= 255 * (255 - top)) by (nonlinear_arith)
        requires
            0 <= bottom as int <= 255,
            0 <= rest as int == 255 - top,
    ;
    let shown: u32 = (bottom as u32) * rest / 255;
    (top as u32 + shown) as u8
}

/// One channel of a layer over another, given the alpha of the result.
fn over_channel(top: u8, top_alpha: u8, bottom: u8, bottom_alpha: u8, alpha: u8) -> (channel: u8)
    requires
        alpha == alpha_over(top_alpha as int, bottom_alpha as int),
    ensures
        channel == channel_over(top as int, top_alpha as int, bottom as int, bottom_alpha as int),
{
    if alpha == 0 {
        0
    } else {
        let rest: u32 = 255 - top_alpha as u32;
        assert(0 <= (top as int) * (top_alpha as int) <= 255 * 255) by (nonlinear_arith)
            requires
                0 <= top as int <= 255,
                0 <= top_alpha as int <= 255,
        ;
        assert(0 <= (bottom as int) * (bottom_alpha as int) <= 255 * 255) by (nonlinear_arith)
            requires
                0 <= bottom as int <= 255,
                0 <= bottom_alpha as int <= 255,
        ;
        let upper: u32 = (top as u32) * (top_alpha as u32);
        let lower: u32 = (bottom as u32) * (bottom_alpha as u32);
        assert(0 <= (lower as int) * (rest as int) <= 255 * 255 * 255) by (nonlinear_arith)
            requires
                0 <= lower as int <= 255 * 255,
                0 <= rest as int <= 255,
        ;
        let weighted: u32 = upper * 255 + lower * rest;
        let mixed: u32 = weighted / (255 * (alpha as u32));
        assert(weighted == top * top_alpha * 255 + bottom * bottom_alpha * (255 - top_alpha))
            by (nonlinear_arith)
            requires
                weighted == upper * 255 + lower * rest,
                upper == top * top_alpha,
                lower == bottom * bottom_alpha,
                rest == 255 - top_alpha,
        ;
        if mixed > 255 {
            255
        } else {
            mixed as u8
        }
    }
}

} // verus!

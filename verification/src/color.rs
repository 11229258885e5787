//! RGBA colors and intensity scaling.

use vstd::prelude::*;
use crate::fixed::{tdiv, SCALE, lemma_tdiv_nonneg, lemma_tdiv_ordered};

verus! {

/// An RGBA color with four 8-bit channels.
#[derive(Clone, Copy, Debug, PartialEq, Eq, Structural)]
pub struct Color {
    pub r: u8,
    pub g: u8,
    pub b: u8,
    pub a: u8,
}

/// Largest total lighting intensity accepted by the channel scaler:
/// two million in world units, far beyond the point where every
/// non-zero channel already clips to 255.
pub const INTENSITY_CAP: i64 = 2_000_000_000;

/// One channel scaled by the fixed-point intensity `x`: the rescaled
/// product rounded to the nearest integer (`+ 500` before dividing by
/// `SCALE`), clamped above at 255.
pub open spec fn scale_channel_s(ch: int, x: int) -> int {
    let v = tdiv(ch * x + 500, SCALE as int);
    if v > 255 {
        255
    } else {
        v
    }
}

/// `c` with every channel scaled by the intensity `x`.
pub open spec fn multiply_s(c: Color, x: int) -> Color {
    Color {
        r: scale_channel_s(c.r as int, x) as u8,
        g: scale_channel_s(c.g as int, x) as u8,
        b: scale_channel_s(c.b as int, x) as u8,
        a: scale_channel_s(c.a as int, x) as u8,
    }
}

/// A scaled channel never leaves `[0, 255]`: no wrap-around in either
/// direction for any non-negative intensity.
pub proof fn lemma_scale_channel_in_range(ch: int, x: int)
    requires
        0 <= ch <= 255,
        0 <= x,
    ensures
        0 <= scale_channel_s(ch, x) <= 255,
{
    assert(0 <= ch * x) by (nonlinear_arith)
        requires
            0 <= ch && 0 <= x;
    lemma_tdiv_nonneg(ch * x + 500, SCALE as int);
}

fn scale_channel(ch: u8, x: i64) -> (r: u8)
    requires
        0 <= x <= INTENSITY_CAP as int,
    ensures
        r as int == scale_channel_s(ch as int, x as int),
{
    proof {
        lemma_scale_channel_in_range(ch as int, x as int);
        assert(0 <= (ch as int) * (x as int) <= 510_000_000_000) by (nonlinear_arith)
            requires
                0 <= ch as int <= 255,
                0 <= x as int <= 2_000_000_000;
    }
    let v: u64 = ((ch as u64) * (x as u64) + 500) / 1000;
    if v > 255 {
        255
    } else {
        v as u8
    }
}

/// Every channel of `c` multiplied by the intensity `x`, rounded to
/// nearest and clamped at the largest representable channel value.
pub fn multiply(c: &Color, x: i64) -> (r: Color)
    requires
        0 <= x <= INTENSITY_CAP as int,
    ensures
        r == multiply_s(*c, x as int),
{
    Color {
        r: scale_channel(c.r, x),
        g: scale_channel(c.g, x),
        b: scale_channel(c.b, x),
        a: scale_channel(c.a, x),
    }
}

/// Scaling by intensity zero zeroes every channel, and a channel that
/// is already zero stays zero under every intensity.
pub proof fn lemma_multiply_zero(c: Color, x: int)
    ensures
        multiply_s(c, 0) == (Color { r: 0, g: 0, b: 0, a: 0 }),
        c.r == 0 ==> multiply_s(c, x).r == 0,
        c.g == 0 ==> multiply_s(c, x).g == 0,
        c.b == 0 ==> multiply_s(c, x).b == 0,
        c.a == 0 ==> multiply_s(c, x).a == 0,
{
    vstd::arithmetic::div_mod::lemma_basic_div(500, SCALE as int);
    assert(forall|t: int| #[trigger] (0 * t) == 0) by (nonlinear_arith);
}

/// Scaling clamps: channels never exceed 255, and once the intensity
/// reaches 255 in world units every non-zero channel saturates to 255.
pub proof fn lemma_multiply_saturates(c: Color, x: int)
    requires
        0 <= x,
    ensures
        0 <= multiply_s(c, x).r <= 255,
        0 <= multiply_s(c, x).g <= 255,
        0 <= multiply_s(c, x).b <= 255,
        0 <= multiply_s(c, x).a <= 255,
        x >= 255_000 && c.r >= 1 ==> multiply_s(c, x).r == 255,
        x >= 255_000 && c.g >= 1 ==> multiply_s(c, x).g == 255,
        x >= 255_000 && c.b >= 1 ==> multiply_s(c, x).b == 255,
        x >= 255_000 && c.a >= 1 ==> multiply_s(c, x).a == 255,
{
    lemma_scale_channel_in_range(c.r as int, x);
    lemma_scale_channel_in_range(c.g as int, x);
    lemma_scale_channel_in_range(c.b as int, x);
    lemma_scale_channel_in_range(c.a as int, x);
    if x >= 255_000 {
        lemma_channel_saturates(c.r as int, x);
        lemma_channel_saturates(c.g as int, x);
        lemma_channel_saturates(c.b as int, x);
        lemma_channel_saturates(c.a as int, x);
    }
}

proof fn lemma_channel_saturates(ch: int, x: int)
    requires
        x >= 255_000,
        0 <= ch <= 255,
    ensures
        ch >= 1 ==> scale_channel_s(ch, x) == 255,
{
    if ch >= 1 {
        assert(ch * x >= x) by (nonlinear_arith)
            requires
                ch >= 1 && x >= 0;
        lemma_tdiv_ordered(255_000, ch * x + 500, SCALE as int);
        vstd::arithmetic::div_mod::lemma_div_by_multiple(255, SCALE as int);
    }
}

/// The background teal of the example scene.
pub fn background_green() -> (c: Color)
    ensures
        c == (Color { r: 0, g: 56, b: 68, a: 255 }),
{
    Color { r: 0, g: 56, b: 68, a: 255 }
}

/// The green of the example scene's small spheres.
pub fn green() -> (c: Color)
    ensures
        c == (Color { r: 0, g: 108, b: 103, a: 255 }),
{
    Color { r: 0, g: 108, b: 103, a: 255 }
}

/// The pink of the example scene's large sphere.
pub fn pink() -> (c: Color)
    ensures
        c == (Color { r: 241, g: 148, b: 180, a: 255 }),
{
    Color { r: 241, g: 148, b: 180, a: 255 }
}

/// The yellow of the example scene's third sphere.
pub fn yellow() -> (c: Color)
    ensures
        c == (Color { r: 255, g: 177, b: 0, a: 255 }),
{
    Color { r: 255, g: 177, b: 0, a: 255 }
}

} // verus!

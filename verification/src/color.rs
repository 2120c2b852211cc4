//! RGBA colors with 8-bit channels, and their per-channel interpolation.

use vstd::prelude::*;
use vstd::arithmetic::div_mod::{lemma_div_is_ordered, lemma_div_multiples_vanish};
use crate::num::SCALE;

verus! {

/// An RGBA color; each channel is an 8-bit value.
#[derive(Clone, Copy, Debug, PartialEq, Eq, Structural)]
pub struct Color {
    pub r: u8,
    pub g: u8,
    pub b: u8,
    pub a: u8,
}

impl Color {
    /// Builds a color from a packed `0xRRGGBBAA` value.
    pub fn from_hex(hex: u32) -> (c: Color)
        ensures
            c.r == (hex >> 24) as u8,
            c.g == (hex >> 16) as u8,
            c.b == (hex >> 8) as u8,
            c.a == hex as u8,
    {
        Color {
            r: (hex >> 24) as u8,
            g: (hex >> 16) as u8,
            b: (hex >> 8) as u8,
            a: hex as u8,
        }
    }

    /// Opaque white, the default color of a newly created object.
    pub fn white() -> (c: Color)
        ensures
            c == spec_white(),
    {
        Color { r: 255, g: 255, b: 255, a: 255 }
    }
}

/// Opaque white, the default color of a newly created object.
pub open spec fn spec_white() -> Color {
    Color { r: 255, g: 255, b: 255, a: 255 }
}

/// One channel interpolated by `f` thousandths: the weighted mean
/// `((SCALE - f)*s + f*e) / SCALE`, truncated to an integer.
pub open spec fn spec_blend_channel(s: u8, e: u8, f: i64) -> int
    recommends
        0 <= f <= SCALE,
{
    ((SCALE - f) * s + f * e) / (SCALE as int)
}

/// A channel blend stays within `0 ..= 255`, and the endpoints are exact.
pub proof fn lemma_blend_channel(s: u8, e: u8, f: i64)
    requires
        0 <= f <= SCALE,
    ensures
        0 <= spec_blend_channel(s, e, f) <= 255,
        spec_blend_channel(s, e, 0) == s,
        spec_blend_channel(s, e, SCALE) == e,
{
    let d = SCALE as int;
    let n = (SCALE - f) * s + f * e;
    assert(n <= d * 255 && n >= 0) by (nonlinear_arith)
        requires
            0 <= f <= SCALE,
            d == SCALE as int,
            n == (SCALE - f) * s + f * e,
            0 <= s <= 255,
            0 <= e <= 255,
    ;
    lemma_div_is_ordered(0, n, d);
    lemma_div_is_ordered(n, d * 255, d);
    lemma_div_multiples_vanish(255, d);
    assert((SCALE - 0) * s + 0 * e == d * (s as int)) by (nonlinear_arith)
        requires
            d == SCALE as int,
    ;
    lemma_div_multiples_vanish(s as int, d);
    assert((SCALE - SCALE) * s + SCALE * e == d * (e as int)) by (nonlinear_arith)
        requires
            d == SCALE as int,
    ;
    lemma_div_multiples_vanish(e as int, d);
}

/// Per-channel interpolation of two colors by `f` thousandths.
pub open spec fn spec_blend_color(s: Color, e: Color, f: i64) -> Color
    recommends
        0 <= f <= SCALE,
{
    Color {
        r: spec_blend_channel(s.r, e.r, f) as u8,
        g: spec_blend_channel(s.g, e.g, f) as u8,
        b: spec_blend_channel(s.b, e.b, f) as u8,
        a: spec_blend_channel(s.a, e.a, f) as u8,
    }
}

/// Blends one channel by `f` thousandths.
fn blend_channel(s: u8, e: u8, f: i64) -> (r: u8)
    requires
        0 <= f <= SCALE,
    ensures
        r == spec_blend_channel(s, e, f),
{
    proof {
        lemma_blend_channel(s, e, f);
    }
    let w = (SCALE - f) as u32;
    let v = f as u32;
    let n = w * (s as u32) + v * (e as u32);
    (n / (SCALE as u32)) as u8
}

/// Blends two colors per channel by `f` thousandths, alpha included.
pub fn blend_color(s: Color, e: Color, f: i64) -> (r: Color)
    requires
        0 <= f <= SCALE,
    ensures
        r == spec_blend_color(s, e, f),
{
    Color {
        r: blend_channel(s.r, e.r, f),
        g: blend_channel(s.g, e.g, f),
        b: blend_channel(s.b, e.b, f),
        a: blend_channel(s.a, e.a, f),
    }
}

/// A color blend by `SCALE` lands exactly on `e`; a blend by `0` on `s`.
pub proof fn lemma_blend_color_ends(s: Color, e: Color)
    ensures
        spec_blend_color(s, e, 0) == s,
        spec_blend_color(s, e, SCALE) == e,
{
    lemma_blend_channel(s.r, e.r, 0);
    lemma_blend_channel(s.g, e.g, 0);
    lemma_blend_channel(s.b, e.b, 0);
    lemma_blend_channel(s.a, e.a, 0);
    lemma_blend_channel(s.r, e.r, SCALE);
    lemma_blend_channel(s.g, e.g, SCALE);
    lemma_blend_channel(s.b, e.b, SCALE);
    lemma_blend_channel(s.a, e.a, SCALE);
}

} // verus!

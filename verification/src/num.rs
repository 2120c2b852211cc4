//! Fixed-point scalars.
//!
//! Every time, coordinate and size in this crate is an `i64` counting
//! thousandths of a scene unit (or thousandths of a second for durations).
//! A scalar parsed from source text always lies within `NUM_MAX`, so the
//! interpolation arithmetic below stays far from `i64` overflow.

use vstd::prelude::*;
use vstd::arithmetic::div_mod::{lemma_div_is_ordered, lemma_div_multiples_vanish};
use vstd::arithmetic::mul::lemma_mul_inequality;

verus! {

/// Fixed-point steps per scene unit: values count thousandths.
pub const SCALE: i64 = 1000;

/// Largest magnitude a fixed-point scalar may take (one billion units).
pub const NUM_MAX: i64 = 1_000_000_000_000;

/// Whether a scalar lies within the representable fixed-point range.
pub open spec fn in_range(n: i64) -> bool {
    -NUM_MAX <= n <= NUM_MAX
}

/// Linear interpolation from `a` to `b` by `f` thousandths: the value
/// `a + (f/SCALE)*(b - a)`, with the scaled difference truncated toward `a`.
pub open spec fn spec_blend(a: i64, b: i64, f: i64) -> int
    recommends
        0 <= f <= SCALE,
{
    if b >= a {
        a + f * (b - a) / (SCALE as int)
    } else {
        a - f * (a - b) / (SCALE as int)
    }
}

/// A blend by `SCALE` lands exactly on `b`, and a blend by `0` exactly on `a`.
pub proof fn lemma_blend_ends(a: i64, b: i64)
    ensures
        spec_blend(a, b, 0) == a,
        spec_blend(a, b, SCALE) == b,
{
    let d = SCALE as int;
    if b >= a {
        lemma_div_multiples_vanish(b - a, d);
        assert(d * (b - a) == (SCALE as i64) * (b - a));
    } else {
        lemma_div_multiples_vanish(a - b, d);
        assert(d * (a - b) == (SCALE as i64) * (a - b));
    }
}

/// A blend never leaves the closed interval between its endpoints.
pub proof fn lemma_blend_range(a: i64, b: i64, f: i64)
    requires
        0 <= f <= SCALE,
    ensures
        b >= a ==> a <= spec_blend(a, b, f) <= b,
        b < a ==> b <= spec_blend(a, b, f) <= a,
{
    let d = SCALE as int;
    if b >= a {
        lemma_mul_inequality(f as int, d, b - a);
        lemma_div_is_ordered(0, f * (b - a), d);
        lemma_div_is_ordered(f * (b - a), d * (b - a), d);
        lemma_div_multiples_vanish(b - a, d);
    } else {
        lemma_mul_inequality(f as int, d, a - b);
        lemma_div_is_ordered(0, f * (a - b), d);
        lemma_div_is_ordered(f * (a - b), d * (a - b), d);
        lemma_div_multiples_vanish(a - b, d);
    }
}

/// Divides a non-negative scalar by a positive one.
pub(crate) fn div_nn(n: i64, d: i64) -> (r: i64)
    requires
        0 <= n,
        0 < d,
    ensures
        r == n as int / d as int,
{
    proof {
        lemma_div_is_ordered(0, n as int, d as int);
        lemma_div_is_ordered(n as int / d as int, n as int, 1);
        vstd::arithmetic::div_mod::lemma_div_nonincreasing(n as int, d as int);
    }
    ((n as u64) / (d as u64)) as i64
}

/// Blends two fixed-point scalars by `f` thousandths.
pub fn blend(a: i64, b: i64, f: i64) -> (r: i64)
    requires
        in_range(a),
        in_range(b),
        0 <= f <= SCALE,
    ensures
        r == spec_blend(a, b, f),
        b >= a ==> a <= r <= b,
        b < a ==> b <= r <= a,
{
    proof {
        lemma_blend_range(a, b, f);
    }
    if b >= a {
        let diff = b - a;
        proof {
            lemma_mul_inequality(f as int, SCALE as int, diff as int);
        }
        let q = div_nn(f * diff, SCALE);
        a + q
    } else {
        let diff = a - b;
        proof {
            lemma_mul_inequality(f as int, SCALE as int, diff as int);
        }
        let q = div_nn(f * diff, SCALE);
        a - q
    }
}

/// The object index a parsed number denotes: its whole-unit part truncated
/// toward zero, with negative numbers giving index zero.
pub open spec fn spec_to_index(v: i64) -> int
    recommends
        in_range(v),
{
    if v <= 0 {
        0
    } else {
        v as int / SCALE as int
    }
}

/// Converts a parsed number to an object index.
pub fn to_index(v: i64) -> (r: usize)
    requires
        in_range(v),
    ensures
        r == spec_to_index(v),
{
    if v <= 0 {
        0
    } else {
        proof {
            lemma_div_is_ordered(v as int, NUM_MAX as int, SCALE as int);
        }
        div_nn(v, SCALE) as usize
    }
}

/// The color channel a parsed number denotes: its whole-unit part truncated
/// toward zero, saturated into `0 ..= 255`.
pub open spec fn spec_to_channel(v: i64) -> u8
    recommends
        in_range(v),
{
    if v <= 0 {
        0u8
    } else if v as int / SCALE as int > 255 {
        255u8
    } else {
        (v as int / SCALE as int) as u8
    }
}

/// Converts a parsed number to an 8-bit color channel.
pub fn to_channel(v: i64) -> (r: u8)
    requires
        in_range(v),
    ensures
        r == spec_to_channel(v),
{
    if v <= 0 {
        0
    } else {
        let q = div_nn(v, SCALE);
        if q > 255 {
            255
        } else {
            q as u8
        }
    }
}

} // verus!

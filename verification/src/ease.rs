//! Easing: mapping elapsed time and duration to a blend factor.
//!
//! The factor is a fixed-point fraction in `0 ..= SCALE` thousandths.  Two
//! interchangeable monotone curves are offered: a linear ramp, and a smooth
//! cubic ramp (the integer counterpart of a sinusoidal ease: the same
//! endpoints and the same easing-in and easing-out shape).

use vstd::prelude::*;
use vstd::arithmetic::div_mod::{
    lemma_div_is_ordered, lemma_div_multiples_vanish, lemma_div_pos_is_pos,
    lemma_multiply_divide_lt,
};
use crate::num::{self, SCALE, NUM_MAX, in_range};

verus! {

/// The easing curve the interpreter blends with.
#[derive(Clone, Copy, Debug, PartialEq, Eq, Structural)]
pub enum Curve {
    /// The factor grows proportionally with elapsed time.
    Linear,
    /// The factor follows the cubic smoothstep, easing in and out.
    Smooth,
}

/// The numerator of the cubic smoothstep at `u` thousandths.
pub open spec fn smooth_num(u: int) -> int {
    3 * (SCALE as int) * u * u - 2 * u * u * u
}

/// The cubic smoothstep of a factor `u` in `0 ..= SCALE` thousandths.
pub open spec fn spec_smooth(u: int) -> int
    recommends
        0 <= u <= SCALE,
{
    smooth_num(u) / ((SCALE * SCALE) as int)
}

/// The blend factor after `t` of `d` thousandths of a second: `SCALE` once
/// `t >= d`, otherwise the chosen curve applied to the elapsed fraction.
pub open spec fn spec_ease(curve: Curve, t: i64, d: i64) -> int
    recommends
        0 <= t,
{
    if t >= d {
        SCALE as int
    } else {
        let u = t * SCALE / (d as int);
        match curve {
            Curve::Linear => u,
            Curve::Smooth => spec_smooth(u),
        }
    }
}

/// The smoothstep numerator is non-negative and never decreases on
/// `0 ..= SCALE`.
proof fn lemma_smooth_num_monotone(a: int, b: int)
    requires
        0 <= a <= b <= SCALE,
    ensures
        0 <= smooth_num(a) <= smooth_num(b),
{
    let s = SCALE as int;
    let na = smooth_num(a);
    let nb = smooth_num(b);
    let aa = a * a;
    let ab = a * b;
    let bb = b * b;
    assert(aa >= 0 && aa <= a * s && ab <= a * s && bb <= b * s) by (nonlinear_arith)
        requires
            0 <= a <= b <= s,
            aa == a * a,
            ab == a * b,
            bb == b * b,
    ;
    let m = 3 * s * (a + b) - 2 * (aa + ab + bb);
    assert(m >= 0) by (nonlinear_arith)
        requires
            m == 3 * s * (a + b) - 2 * (aa + ab + bb),
            aa <= a * s,
            ab <= a * s,
            bb <= b * s,
            a <= b,
            s >= 0,
    ;
    assert(nb - na == (b - a) * m) by (nonlinear_arith)
        requires
            na == 3 * s * a * a - 2 * a * a * a,
            nb == 3 * s * b * b - 2 * b * b * b,
            m == 3 * s * (a + b) - 2 * (aa + ab + bb),
            aa == a * a,
            ab == a * b,
            bb == b * b,
    ;
    assert((b - a) * m >= 0) by (nonlinear_arith)
        requires
            b - a >= 0,
            m >= 0,
    ;
    assert(na == aa * (3 * s - 2 * a)) by (nonlinear_arith)
        requires
            na == 3 * s * a * a - 2 * a * a * a,
            aa == a * a,
    ;
    assert(aa * (3 * s - 2 * a) >= 0) by (nonlinear_arith)
        requires
            aa >= 0,
            3 * s - 2 * a >= 0,
    ;
}

/// The smoothstep fixes both endpoints and stays within `0 ..= SCALE`.
proof fn lemma_smooth_range(u: int)
    requires
        0 <= u <= SCALE,
    ensures
        0 <= spec_smooth(u) <= SCALE,
        spec_smooth(0) == 0,
        spec_smooth(SCALE as int) == SCALE,
{
    let s = SCALE as int;
    let ss = (SCALE * SCALE) as int;
    lemma_smooth_num_monotone(0, u);
    lemma_smooth_num_monotone(u, s);
    assert(smooth_num(s) == ss * s) by (nonlinear_arith)
        requires
            smooth_num(s) == 3 * s * s * s - 2 * s * s * s,
            ss == s * s,
    ;
    lemma_div_is_ordered(0, smooth_num(u), ss);
    lemma_div_is_ordered(smooth_num(u), ss * s, ss);
    lemma_div_multiples_vanish(s, ss);
    assert(smooth_num(0) == 0);
    assert(spec_smooth(0) == 0) by {
        vstd::arithmetic::div_mod::lemma_div_of0(ss);
    }
}

/// First of the easing laws: with a positive duration, no time elapsed
/// gives the factor `0`, whichever curve is chosen.
pub proof fn lemma_ease_zero(curve: Curve, d: i64)
    requires
        d > 0,
    ensures
        spec_ease(curve, 0, d) == 0,
{
    vstd::arithmetic::div_mod::lemma_div_of0(d as int);
    lemma_smooth_range(0);
}

/// Second of the easing laws: once the elapsed time reaches the duration,
/// the factor is exactly `SCALE`, whichever curve is chosen.
pub proof fn lemma_ease_full(curve: Curve, t: i64, d: i64)
    requires
        t >= d,
    ensures
        spec_ease(curve, t, d) == SCALE,
{
}

/// The factor always lies in `0 ..= SCALE`.
pub proof fn lemma_ease_range(curve: Curve, t: i64, d: i64)
    requires
        0 <= t,
    ensures
        0 <= spec_ease(curve, t, d) <= SCALE,
{
    if t < d {
        let u = t * SCALE / (d as int);
        lemma_u_range(t, d);
        lemma_smooth_range(u);
    }
}

/// The elapsed fraction of an unfinished instruction lies in `0 ..< SCALE`.
proof fn lemma_u_range(t: i64, d: i64)
    requires
        0 <= t < d,
    ensures
        0 <= t * SCALE / (d as int) < SCALE,
{
    let s = SCALE as int;
    lemma_div_pos_is_pos(t * SCALE, d as int);
    assert(t * SCALE < (d as int) * s) by (nonlinear_arith)
        requires
            0 <= t < d,
            s == SCALE as int,
    ;
    lemma_multiply_divide_lt(t * SCALE, d as int, s);
}

/// Third of the easing laws: for a fixed positive duration the factor never
/// decreases as elapsed time grows, whichever curve is chosen.
pub proof fn lemma_ease_monotone(curve: Curve, t1: i64, t2: i64, d: i64)
    requires
        0 <= t1 <= t2,
        d > 0,
    ensures
        spec_ease(curve, t1, d) <= spec_ease(curve, t2, d),
{
    lemma_ease_range(curve, t1, d);
    lemma_ease_range(curve, t2, d);
    if t1 < d && t2 < d {
        let u1 = t1 * SCALE / d as int;
        let u2 = t2 * SCALE / d as int;
        assert(t1 * SCALE <= t2 * SCALE) by (nonlinear_arith)
            requires
                0 <= t1 <= t2,
        ;
        lemma_div_is_ordered(t1 * SCALE, t2 * SCALE, d as int);
        lemma_u_range(t1, d);
        lemma_u_range(t2, d);
        lemma_smooth_num_monotone(u1, u2);
        lemma_div_is_ordered(smooth_num(u1), smooth_num(u2), (SCALE * SCALE) as int);
    }
}

/// The cubic smoothstep of a factor in `0 ..= SCALE` thousandths.
fn smooth(u: i64) -> (r: i64)
    requires
        0 <= u <= SCALE,
    ensures
        r == spec_smooth(u as int),
{
    proof {
        lemma_smooth_range(u as int);
        lemma_smooth_num_monotone(u as int, u as int);
        assert(0 <= (u as int) * (u as int) <= 1_000_000) by (nonlinear_arith)
            requires
                0 <= u <= 1000,
        ;
    }
    let uu = u * u;
    proof {
        let ui = u as int;
        let s = SCALE as int;
        assert(0 <= 2 * (uu as int) * ui <= 2_000_000_000 && 3 * s * (uu as int) - 2 * (uu as int)
            * ui == 3 * s * ui * ui - 2 * ui * ui * ui) by (nonlinear_arith)
            requires
                0 <= ui <= 1000,
                uu as int == ui * ui,
                s == 1000,
        ;
    }
    let n = 3 * SCALE * uu - 2 * uu * u;
    num::div_nn(n, SCALE * SCALE)
}

/// The blend factor after `t` of `d` thousandths of a second.
pub fn ease(curve: Curve, t: i64, d: i64) -> (r: i64)
    requires
        0 <= t <= 3 * NUM_MAX,
        in_range(d),
    ensures
        r == spec_ease(curve, t, d),
        0 <= r <= SCALE,
{
    proof {
        lemma_ease_range(curve, t, d);
    }
    if t >= d {
        SCALE
    } else {
        proof {
            lemma_u_range(t, d);
        }
        let u = num::div_nn(t * SCALE, d);
        match curve {
            Curve::Linear => u,
            Curve::Smooth => smooth(u),
        }
    }
}

} // verus!

//! Tagged 2D vectors.
//!
//! Positions and sizes are either *relative* (scene units) or *absolute*
//! (device pixels); a fixed scale factor converts relative to absolute.
//! The tag survives interpolation, and blending two vectors with different
//! tags is rejected before anything is computed.

use vstd::prelude::*;
use crate::num::{self, SCALE, in_range, spec_blend};

verus! {

/// Device pixels per scene unit.
pub const UNIT_TO_PX: i64 = 50;

/// A 2D vector, tagged as scene units or device pixels.
#[derive(Clone, Copy, Debug, PartialEq, Eq, Structural)]
pub enum Vec2 {
    Relative(i64, i64),
    Absolute(i64, i64),
}

impl Vec2 {
    /// Whether this vector is in scene units.
    pub open spec fn is_relative(self) -> bool {
        self is Relative
    }

    /// The first component, whatever the tag.
    pub open spec fn x(self) -> i64 {
        match self {
            Vec2::Relative(x, _) => x,
            Vec2::Absolute(x, _) => x,
        }
    }

    /// The second component, whatever the tag.
    pub open spec fn y(self) -> i64 {
        match self {
            Vec2::Relative(_, y) => y,
            Vec2::Absolute(_, y) => y,
        }
    }

    /// Whether both components lie in the fixed-point range.
    pub open spec fn bounded(self) -> bool {
        in_range(self.x()) && in_range(self.y())
    }
}

/// Whether two vectors carry the same tag.
pub open spec fn same_tag(a: Vec2, b: Vec2) -> bool {
    a is Relative <==> b is Relative
}

/// Component-wise interpolation from `a` to `b` by `f` thousandths,
/// keeping `a`'s tag.
pub open spec fn spec_blend_vec2(a: Vec2, b: Vec2, f: i64) -> Vec2
    recommends
        same_tag(a, b),
        a.bounded(),
        b.bounded(),
        0 <= f <= SCALE,
{
    let x = spec_blend(a.x(), b.x(), f) as i64;
    let y = spec_blend(a.y(), b.y(), f) as i64;
    if a is Relative {
        Vec2::Relative(x, y)
    } else {
        Vec2::Absolute(x, y)
    }
}

/// Blends two vectors component-wise by `f` thousandths.  Vectors with the
/// same tag blend to a vector of that tag; mixed tags are rejected with
/// `None` before anything is computed.
pub fn blend_vec2(a: Vec2, b: Vec2, f: i64) -> (r: Option<Vec2>)
    requires
        a.bounded(),
        b.bounded(),
        0 <= f <= SCALE,
    ensures
        same_tag(a, b) <==> r is Some,
        same_tag(a, b) ==> (r matches Some(v) && v == spec_blend_vec2(a, b, f)
            && (v.is_relative() <==> a.is_relative()) && v.bounded()),
{
    proof {
        num::lemma_blend_range(a.x(), b.x(), f);
        num::lemma_blend_range(a.y(), b.y(), f);
    }
    match (a, b) {
        (Vec2::Relative(ax, ay), Vec2::Relative(bx, by)) => {
            Some(Vec2::Relative(num::blend(ax, bx, f), num::blend(ay, by, f)))
        },
        (Vec2::Absolute(ax, ay), Vec2::Absolute(bx, by)) => {
            Some(Vec2::Absolute(num::blend(ax, bx, f), num::blend(ay, by, f)))
        },
        _ => None,
    }
}

/// Blends two vectors that are known to carry the same tag.
pub fn blend_vec2_same(a: Vec2, b: Vec2, f: i64) -> (r: Vec2)
    requires
        a.bounded(),
        b.bounded(),
        same_tag(a, b),
        0 <= f <= SCALE,
    ensures
        r == spec_blend_vec2(a, b, f),
        r.bounded(),
        r.is_relative() <==> a.is_relative(),
{
    blend_vec2(a, b, f).unwrap()
}

/// The absolute (device pixel) form of a vector: a relative vector is scaled
/// by `UNIT_TO_PX`; an absolute vector is returned unchanged.
pub open spec fn spec_to_absolute(v: Vec2) -> Vec2
    recommends
        v.bounded(),
{
    match v {
        Vec2::Relative(x, y) => Vec2::Absolute((UNIT_TO_PX * x) as i64, (UNIT_TO_PX * y) as i64),
        Vec2::Absolute(_, _) => v,
    }
}

/// Converts a vector to device pixels.
pub fn to_absolute(v: Vec2) -> (r: Vec2)
    requires
        v.bounded(),
    ensures
        r == spec_to_absolute(v),
        r is Absolute,
{
    match v {
        Vec2::Relative(x, y) => Vec2::Absolute(UNIT_TO_PX * x, UNIT_TO_PX * y),
        Vec2::Absolute(x, y) => Vec2::Absolute(x, y),
    }
}

} // verus!

//! Fixed-point plane geometry: the integer vector type, its mathematical
//! view, dot products, squared norms, and single-axis clamping.

use vstd::prelude::*;

verus! {

/// One game unit expressed in micro-units, the grain of every coordinate.
pub const UNIT: i64 = 1_000_000;

/// Nominal length of a heading vector: a heading with squared norm
/// `DIR_SCALE * DIR_SCALE` stands for a unit direction.
pub const DIR_SCALE: i64 = 1000;

/// A plane vector over the mathematical integers; the view of `Vec2I`.
pub ghost struct V2 {
    pub x: int,
    pub y: int,
}

/// A plane vector in micro-units (positions) or direction scale (headings).
#[derive(Clone, Copy, PartialEq, Eq, Structural, Debug)]
pub struct Vec2I {
    pub x: i64,
    pub y: i64,
}

impl View for Vec2I {
    type V = V2;

    open spec fn view(&self) -> V2 {
        V2 { x: self.x as int, y: self.y as int }
    }
}

impl Vec2I {
    pub fn new(x: i64, y: i64) -> (v: Vec2I)
        ensures
            v@ == (V2 { x: x as int, y: y as int }),
    {
        Vec2I { x, y }
    }
}

/// Dot product over the mathematical integers.
pub open spec fn dot(a: V2, b: V2) -> int {
    a.x * b.x + a.y * b.y
}

/// Squared Euclidean norm over the mathematical integers.
pub open spec fn norm_sq(a: V2) -> int {
    dot(a, a)
}

/// Componentwise difference.
pub open spec fn vec_sub(a: V2, b: V2) -> V2 {
    V2 { x: a.x - b.x, y: a.y - b.y }
}

/// One axis clamped into `[lo, hi]`, testing the low bound first, exactly as
/// the boundary boxes do.
pub open spec fn clamp1(v: int, lo: int, hi: int) -> int {
    if v < lo {
        lo
    } else if v > hi {
        hi
    } else {
        v
    }
}

/// Whether one axis lies outside `[lo, hi]`; the reflection trigger.
pub open spec fn outside1(v: int, lo: int, hi: int) -> bool {
    v < lo || v > hi
}

/// Executable single-axis clamp.
pub fn clamp_axis(v: i64, lo: i64, hi: i64) -> (r: i64)
    ensures
        r == clamp1(v as int, lo as int, hi as int),
{
    if v < lo {
        lo
    } else if v > hi {
        hi
    } else {
        v
    }
}

} // verus!

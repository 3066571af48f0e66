//! Headings: fixed-point unit vectors, their renormalization, the per-axis
//! boundary flip, and mirror reflection about a collision normal.

use vstd::prelude::*;
use crate::arith::{
    div_trunc, div_trunc_i128, isqrt, isqrt_spec, lemma_cauchy_schwarz, lemma_div_trunc_bound,
    lemma_div_trunc_lower, lemma_reflection_preserves_norm_sq, lemma_sq_le,
};
use crate::geom::{dot, norm_sq, outside1, vec_sub, Vec2I, V2, DIR_SCALE};

verus! {

/// Least squared norm of a well-formed heading; the square of the diagonal
/// component `707`, the fixed-point rendering of `DIR_SCALE / sqrt(2)`.
pub const MIN_DIR_NORM_SQ: i64 = 499_849;

/// Greatest squared norm of a well-formed heading: both components at full
/// scale.
pub const MAX_DIR_NORM_SQ: i64 = 2_000_000;

/// Largest coordinate magnitude the reflection routine accepts; positions a
/// motion step can reach stay well inside it.
pub const REFLECT_COORD_MAX: i64 = 10_000_000_000_000;

/// A well-formed heading: componentwise within the direction scale, nonzero,
/// and of squared norm within a fixed tolerance around `DIR_SCALE^2`; the
/// fixed-point reading of "unit length".
pub open spec fn dir_wf(d: V2) -> bool {
    &&& -(DIR_SCALE as int) <= d.x <= DIR_SCALE as int
    &&& -(DIR_SCALE as int) <= d.y <= DIR_SCALE as int
    &&& MIN_DIR_NORM_SQ as int <= norm_sq(d) <= MAX_DIR_NORM_SQ as int
}

/// The heading a raw vector `(a, b)` renormalizes to: each component scaled
/// by `DIR_SCALE` over the floor square root of the squared norm, rounded
/// toward zero. `None` when the raw vector is degenerate.
pub open spec fn renorm_spec(a: int, b: int) -> Option<V2> {
    let n = isqrt_spec((a * a + b * b) as nat) as int;
    if n == 0 {
        None
    } else {
        Some(V2 { x: div_trunc(a * (DIR_SCALE as int), n), y: div_trunc(b * (DIR_SCALE as int), n) })
    }
}

/// The view of an optional vector.
pub open spec fn opt_view(r: Option<Vec2I>) -> Option<V2> {
    match r {
        Option::None => Option::None,
        Option::Some(v) => Option::Some(v@),
    }
}

/// Renormalizes a raw vector to a well-formed heading, or reports it
/// degenerate.
pub fn renormalize(a: i64, b: i64) -> (r: Option<Vec2I>)
    requires
        -10_000 <= a <= 10_000,
        -10_000 <= b <= 10_000,
    ensures
        opt_view(r) == renorm_spec(a as int, b as int),
        r matches Some(d) ==> dir_wf(d@),
{
    assert(a * a <= 100_000_000 && a * a >= 0) by (nonlinear_arith)
        requires
            -10_000 <= a <= 10_000,
    ;
    assert(b * b <= 100_000_000 && b * b >= 0) by (nonlinear_arith)
        requires
            -10_000 <= b <= 10_000,
    ;
    let nsq: i64 = a * a + b * b;
    let n: u64 = isqrt(nsq as u64);
    if n == 0 {
        return None;
    }
    proof {
        lemma_renorm_component(a as int, b as int, n as int);
        lemma_renorm_component(b as int, a as int, n as int);
    }
    let ni: i64 = n as i64;
    proof {
        assert(DIR_SCALE as int == 1000);
        assert(ni as i128 > 0);
    }
    let x128: i128 = div_trunc_i128((a as i128) * (DIR_SCALE as i128), ni as i128);
    let y128: i128 = div_trunc_i128((b as i128) * (DIR_SCALE as i128), ni as i128);
    let x: i64 = x128 as i64;
    let y: i64 = y128 as i64;
    proof {
        lemma_renorm_norm(a as int, b as int, n as int);
        assert(x as int * (x as int) + y as int * (y as int) <= 2_000_000) by (nonlinear_arith)
            requires
                -1000 <= x as int <= 1000,
                -1000 <= y as int <= 1000,
        ;
    }
    Some(Vec2I::new(x, y))
}

/// Each renormalized component lies within the direction scale.
proof fn lemma_renorm_component(a: int, b: int, n: int)
    requires
        n >= 1,
        n * n <= a * a + b * b,
        a * a + b * b < (n + 1) * (n + 1),
        a * a >= 0,
        b * b >= 0,
    ensures
        -1000 <= div_trunc(a * 1000, n) <= 1000,
{
    assert(a * a < (n + 1) * (n + 1));
    lemma_sq_le_strict(a, n + 1);
    assert(-(1000 * n) <= a * 1000 <= 1000 * n);
    lemma_div_trunc_bound(a * 1000, n, 1000);
}

/// A square strictly below another square strictly bounds the base.
proof fn lemma_sq_le_strict(a: int, c: int)
    requires
        a * a < c * c,
        0 < c,
    ensures
        -c < a < c,
{
    if a >= c {
        assert(a * a >= c * c) by (nonlinear_arith)
            requires
                a >= c > 0,
        ;
    }
    if a <= -c {
        assert(a * a >= c * c) by (nonlinear_arith)
            requires
                a <= -c < 0,
        ;
    }
}

/// The renormalized vector's squared norm reaches the well-formedness floor:
/// its larger component has magnitude at least `707`.
proof fn lemma_renorm_norm(a: int, b: int, n: int)
    requires
        n >= 1,
        n * n <= a * a + b * b,
        a * a >= 0,
        b * b >= 0,
    ensures
        MIN_DIR_NORM_SQ as int <= div_trunc(a * 1000, n) * div_trunc(a * 1000, n) + div_trunc(
            b * 1000,
            n,
        ) * div_trunc(b * 1000, n),
{
    let da = div_trunc(a * 1000, n);
    let db = div_trunc(b * 1000, n);
    assert(da * da >= 0) by (nonlinear_arith);
    assert(db * db >= 0) by (nonlinear_arith);
    if a * a >= b * b {
        lemma_renorm_major(a, n);
        assert(da * da >= 707 * 707) by (nonlinear_arith)
            requires
                da >= 707 || da <= -707,
        ;
    } else {
        lemma_renorm_major(b, n);
        assert(db * db >= 707 * 707) by (nonlinear_arith)
            requires
                db >= 707 || db <= -707,
        ;
    }
}

/// A component whose square is at least half the squared norm renormalizes to
/// magnitude at least `707`.
proof fn lemma_renorm_major(a: int, n: int)
    requires
        n >= 1,
        n * n <= 2 * (a * a),
    ensures
        div_trunc(a * 1000, n) >= 707 || div_trunc(a * 1000, n) <= -707,
{
    let m = if a >= 0 { a } else { -a };
    assert(m * m == a * a) by (nonlinear_arith)
        requires
            m == a || m == -a,
    ;
    assert((707 * n) * (707 * n) <= (1000 * m) * (1000 * m)) by (nonlinear_arith)
        requires
            n * n <= 2 * (m * m),
            n >= 0,
            m >= 0,
    ;
    lemma_sq_le(707 * n, 1000 * m);
    lemma_div_trunc_lower(m * 1000, n, 707);
    if a < 0 {
        assert(div_trunc(a * 1000, n) == -div_trunc(m * 1000, n));
    }
}

/// A heading with its components negated on the axes where `pos` lies outside
/// the box; the boundary reflection of the direction reflector.
pub open spec fn flip_axes_spec(
    pos: V2,
    d: V2,
    x_min: int,
    x_max: int,
    y_min: int,
    y_max: int,
) -> V2 {
    V2 {
        x: if outside1(pos.x, x_min, x_max) {
            -d.x
        } else {
            d.x
        },
        y: if outside1(pos.y, y_min, y_max) {
            -d.y
        } else {
            d.y
        },
    }
}

/// Flipping heading components at the boundary never changes the squared
/// norm: a boundary-reflected heading is as much a unit vector as before.
pub proof fn lemma_flip_axes_preserves_norm(
    pos: V2,
    d: V2,
    x_min: int,
    x_max: int,
    y_min: int,
    y_max: int,
)
    ensures
        norm_sq(flip_axes_spec(pos, d, x_min, x_max, y_min, y_max)) == norm_sq(d),
{
    assert((-d.x) * (-d.x) == d.x * d.x) by (nonlinear_arith);
    assert((-d.y) * (-d.y) == d.y * d.y) by (nonlinear_arith);
}

/// Executable boundary flip of a heading, from the pre-clamp position.
pub fn flip_axes(pos: Vec2I, d: Vec2I, x_min: i64, x_max: i64, y_min: i64, y_max: i64) -> (r: Vec2I)
    requires
        dir_wf(d@),
    ensures
        r@ == flip_axes_spec(pos@, d@, x_min as int, x_max as int, y_min as int, y_max as int),
        dir_wf(r@),
{
    let nx: i64 = if pos.x < x_min || pos.x > x_max {
        -d.x
    } else {
        d.x
    };
    let ny: i64 = if pos.y < y_min || pos.y > y_max {
        -d.y
    } else {
        d.y
    };
    proof {
        lemma_flip_axes_preserves_norm(
            pos@,
            d@,
            x_min as int,
            x_max as int,
            y_min as int,
            y_max as int,
        );
    }
    Vec2I::new(nx, ny)
}

/// Mirror reflection of heading `d` about normal `v`, in the fixed-point
/// model: the exact reflection `d - 2 (d . v) v / |v|^2` rounded
/// componentwise toward zero, then renormalized. A degenerate normal, or a
/// reflection that rounds to zero, leaves the heading unchanged.
pub open spec fn reflect_spec(d: V2, v: V2) -> V2 {
    let s = norm_sq(v);
    if s == 0 {
        d
    } else {
        let q = 2 * dot(d, v);
        let rx = d.x - div_trunc(q * v.x, s);
        let ry = d.y - div_trunc(q * v.y, s);
        match renorm_spec(rx, ry) {
            Some(nd) => nd,
            None => d,
        }
    }
}

/// The exact mirror reflection preserves the squared norm: with `s = |v|^2`
/// and `q = 2 (d . v)`, the reflection scaled through by `s` has squared norm
/// exactly `s^2 |d|^2`. Rounding and renormalization in `reflect_spec` only
/// re-target the nominal scale afterwards.
pub proof fn lemma_reflect_exact_preserves_norm(d: V2, v: V2)
    ensures
        ({
            let s = norm_sq(v);
            let q = 2 * dot(d, v);
            norm_sq(V2 { x: d.x * s - q * v.x, y: d.y * s - q * v.y }) == s * s * norm_sq(d)
        }),
{
    lemma_reflection_preserves_norm_sq(d.x, d.y, v.x, v.y);
}

/// The numerators of the reflection quotients stay within `2829` times the
/// normal squared norm; `2829` exceeds twice `sqrt(2)` times `DIR_SCALE`.
proof fn lemma_num_bound(d: V2, v: V2)
    requires
        dir_wf(d),
        norm_sq(v) >= 1,
    ensures
        -(2829 * norm_sq(v)) <= 2 * dot(d, v) * v.x <= 2829 * norm_sq(v),
        -(2829 * norm_sq(v)) <= 2 * dot(d, v) * v.y <= 2829 * norm_sq(v),
{
    let s = norm_sq(v);
    let t = dot(d, v);
    let nd = norm_sq(d);
    lemma_cauchy_schwarz(d.x, d.y, v.x, v.y);
    assert(t * t <= 2_000_000 * s) by (nonlinear_arith)
        requires
            t * t <= nd * s,
            nd <= 2_000_000,
            s >= 1,
    ;
    assert(v.x * v.x >= 0) by (nonlinear_arith);
    assert(v.y * v.y >= 0) by (nonlinear_arith);
    assert((2 * t * v.x) * (2 * t * v.x) <= (2829 * s) * (2829 * s)) by (nonlinear_arith)
        requires
            t * t <= 2_000_000 * s,
            v.x * v.x <= s,
            s >= 1,
    ;
    lemma_sq_le(2 * t * v.x, 2829 * s);
    assert((2 * t * v.y) * (2 * t * v.y) <= (2829 * s) * (2829 * s)) by (nonlinear_arith)
        requires
            t * t <= 2_000_000 * s,
            v.y * v.y <= s,
            s >= 1,
    ;
    lemma_sq_le(2 * t * v.y, 2829 * s);
}

/// Executable mirror reflection of a heading about a collision normal.
pub fn reflect(d: Vec2I, v: Vec2I) -> (r: Vec2I)
    requires
        dir_wf(d@),
        -REFLECT_COORD_MAX <= v.x <= REFLECT_COORD_MAX,
        -REFLECT_COORD_MAX <= v.y <= REFLECT_COORD_MAX,
    ensures
        r@ == reflect_spec(d@, v@),
        dir_wf(r@),
{
    let vx: i128 = v.x as i128;
    let vy: i128 = v.y as i128;
    assert(vx * vx >= 0 && vx * vx <= 100_000_000_000_000_000_000_000_000) by (nonlinear_arith)
        requires
            -10_000_000_000_000 <= vx <= 10_000_000_000_000,
    ;
    assert(vy * vy >= 0 && vy * vy <= 100_000_000_000_000_000_000_000_000) by (nonlinear_arith)
        requires
            -10_000_000_000_000 <= vy <= 10_000_000_000_000,
    ;
    let s: i128 = vx * vx + vy * vy;
    if s == 0 {
        return d;
    }
    let dx: i128 = d.x as i128;
    let dy: i128 = d.y as i128;
    assert(dx * vx >= -10_000_000_000_000_000 && dx * vx <= 10_000_000_000_000_000)
        by (nonlinear_arith)
        requires
            -1000 <= dx <= 1000,
            -10_000_000_000_000 <= vx <= 10_000_000_000_000,
    ;
    assert(dy * vy >= -10_000_000_000_000_000 && dy * vy <= 10_000_000_000_000_000)
        by (nonlinear_arith)
        requires
            -1000 <= dy <= 1000,
            -10_000_000_000_000 <= vy <= 10_000_000_000_000,
    ;
    let q: i128 = 2 * (dx * vx + dy * vy);
    assert(q * vx >= -400_000_000_000_000_000_000_000_000_000 && q * vx
        <= 400_000_000_000_000_000_000_000_000_000) by (nonlinear_arith)
        requires
            -40_000_000_000_000_000 <= q <= 40_000_000_000_000_000,
            -10_000_000_000_000 <= vx <= 10_000_000_000_000,
    ;
    assert(q * vy >= -400_000_000_000_000_000_000_000_000_000 && q * vy
        <= 400_000_000_000_000_000_000_000_000_000) by (nonlinear_arith)
        requires
            -40_000_000_000_000_000 <= q <= 40_000_000_000_000_000,
            -10_000_000_000_000 <= vy <= 10_000_000_000_000,
    ;
    let numx: i128 = q * vx;
    let numy: i128 = q * vy;
    proof {
        lemma_num_bound(d@, v@);
        lemma_div_trunc_bound(numx as int, s as int, 2829);
        lemma_div_trunc_bound(numy as int, s as int, 2829);
    }
    let qx: i128 = div_trunc_i128(numx, s);
    let qy: i128 = div_trunc_i128(numy, s);
    let rx: i64 = d.x - (qx as i64);
    let ry: i64 = d.y - (qy as i64);
    match renormalize(rx, ry) {
        Some(nd) => nd,
        None => d,
    }
}

} // verus!

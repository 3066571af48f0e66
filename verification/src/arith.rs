//! Integer arithmetic underpinning the fixed-point geometry: truncating
//! division, integer square roots, and the nonlinear facts the reflection
//! proofs lean on.

use vstd::prelude::*;
use vstd::arithmetic::div_mod::{
    lemma_div_by_multiple, lemma_div_is_ordered, lemma_div_nonincreasing, lemma_div_pos_is_pos,
};

verus! {

/// Quotient of `a` by `b` rounded toward zero; the rounding used by every
/// fixed-point division in this crate.
pub open spec fn div_trunc(a: int, b: int) -> int {
    if a >= 0 {
        a / b
    } else {
        -((-a) / b)
    }
}

/// A square bounded by a square of a nonnegative number bounds the base on
/// both sides.
pub proof fn lemma_sq_le(a: int, b: int)
    requires
        a * a <= b * b,
        0 <= b,
    ensures
        -b <= a <= b,
{
    if a > b {
        assert(a * a > b * b) by (nonlinear_arith)
            requires
                a > b,
                b >= 0,
        ;
    }
    if a < -b {
        assert(a * a > b * b) by (nonlinear_arith)
            requires
                a < -b,
                b >= 0,
        ;
    }
}

/// Squared binomials, spelled out once for the identity proofs below.
pub proof fn lemma_sq_sum(u: int, v: int)
    ensures
        (u + v) * (u + v) == u * u + 2 * (u * v) + v * v,
        (u - v) * (u - v) == u * u - 2 * (u * v) + v * v,
{
    assert((u + v) * (u + v) == u * u + 2 * (u * v) + v * v) by (nonlinear_arith);
    assert((u - v) * (u - v) == u * u - 2 * (u * v) + v * v) by (nonlinear_arith);
}

/// Products of products can swap their inner factors.
pub proof fn lemma_mul_swap(p: int, q: int, r: int, t: int)
    ensures
        (p * q) * (r * t) == (p * r) * (q * t),
{
    assert((p * q) * (r * t) == (p * r) * (q * t)) by (nonlinear_arith);
}

/// A product distributes over a two-term sum on each side.
pub proof fn lemma_mul_distrib(p: int, r: int, t: int)
    ensures
        p * (r + t) == p * r + p * t,
        (r + t) * p == r * p + t * p,
    {
    assert(p * (r + t) == p * r + p * t) by (nonlinear_arith);
    assert((r + t) * p == r * p + t * p) by (nonlinear_arith);
}

/// Cauchy-Schwarz in the plane: the square of a dot product is at most the
/// product of the squared norms.
pub proof fn lemma_cauchy_schwarz(dx: int, dy: int, vx: int, vy: int)
    ensures
        (dx * vx + dy * vy) * (dx * vx + dy * vy) <= (dx * dx + dy * dy) * (vx * vx + vy * vy),
{
    let a = dx * vx;
    let b = dy * vy;
    let c = dx * vy;
    let e = dy * vx;
    lemma_sq_sum(a, b);
    lemma_sq_sum(c, e);
    lemma_mul_swap(dx, vx, dx, vx);
    lemma_mul_swap(dy, vy, dy, vy);
    lemma_mul_swap(dx, vy, dx, vy);
    lemma_mul_swap(dy, vx, dy, vx);
    lemma_mul_swap(dx, vx, dy, vy);
    lemma_mul_swap(dx, vy, dy, vx);
    assert((dx * dx + dy * dy) * (vx * vx + vy * vy)
        == (dx * dx) * (vx * vx) + (dx * dx) * (vy * vy) + (dy * dy) * (vx * vx) + (dy * dy) * (vy
        * vy)) by {
        lemma_mul_distrib(dx * dx, vx * vx, vy * vy);
        lemma_mul_distrib(dy * dy, vx * vx, vy * vy);
        lemma_mul_distrib(vx * vx + vy * vy, dx * dx, dy * dy);
    }
    assert((c - e) * (c - e) >= 0) by (nonlinear_arith);
}

/// Truncating division is bounded by `k` when the dividend is within `k * b`.
pub proof fn lemma_div_trunc_bound(a: int, b: int, k: int)
    requires
        b > 0,
        0 <= k,
        -(k * b) <= a <= k * b,
    ensures
        -k <= div_trunc(a, b) <= k,
{
    lemma_div_by_multiple(k, b);
    if a >= 0 {
        lemma_div_is_ordered(a, k * b, b);
        lemma_div_pos_is_pos(a, b);
    } else {
        lemma_div_is_ordered(-a, k * b, b);
        lemma_div_pos_is_pos(-a, b);
    }
}

/// Truncating division of a dividend at least `k * b` yields at least `k`.
pub proof fn lemma_div_trunc_lower(a: int, b: int, k: int)
    requires
        b > 0,
        0 <= k,
        k * b <= a,
    ensures
        k <= div_trunc(a, b),
{
    lemma_div_by_multiple(k, b);
    lemma_div_is_ordered(k * b, a, b);
}

/// Exact mirror reflection preserves the squared norm. With `s = |v|^2` and
/// `q = 2 (d . v)`, the reflection of `d` about `v` scaled through by `s` is
/// `(dx*s - q*vx, dy*s - q*vy)`, and its squared norm is exactly `s^2 |d|^2`.
pub proof fn lemma_reflection_preserves_norm_sq(dx: int, dy: int, vx: int, vy: int)
    ensures
        ({
            let s = vx * vx + vy * vy;
            let q = 2 * (dx * vx + dy * vy);
            (dx * s - q * vx) * (dx * s - q * vx) + (dy * s - q * vy) * (dy * s - q * vy)
                == s * s * (dx * dx + dy * dy)
        }),
{
    let s = vx * vx + vy * vy;
    let q = 2 * (dx * vx + dy * vy);
    lemma_sq_sum(dx * s, q * vx);
    lemma_sq_sum(dy * s, q * vy);
    lemma_mul_swap(dx, s, dx, s);
    lemma_mul_swap(dy, s, dy, s);
    lemma_mul_swap(q, vx, q, vx);
    lemma_mul_swap(q, vy, q, vy);
    lemma_mul_rearrange(dx, s, q, vx);
    lemma_mul_rearrange(dy, s, q, vy);
    lemma_mul_distrib(s * s, dx * dx, dy * dy);
    lemma_mul_distrib(s * q, dx * vx, dy * vy);
    lemma_mul_distrib(q * q, vx * vx, vy * vy);
    assert(2 * ((s * q) * (dx * vx + dy * vy)) == (q * q) * s) by (nonlinear_arith)
        requires
            q == 2 * (dx * vx + dy * vy),
    ;
}

/// Four-way products can regroup their factors.
pub proof fn lemma_mul_rearrange(x: int, y: int, z: int, w: int)
    ensures
        (x * y) * (z * w) == (y * z) * (x * w),
{
    assert((x * y) * (z * w) == (y * z) * (x * w)) by (nonlinear_arith);
}

/// Integer square root, as a recursive specification.
pub open spec fn isqrt_spec(n: nat) -> nat
    decreases n,
{
    if n == 0 {
        0
    } else {
        let r = isqrt_spec((n - 1) as nat);
        if (r + 1) * (r + 1) <= n {
            r + 1
        } else {
            r
        }
    }
}

/// `isqrt_spec(n)` is the floor of the square root of `n`.
#[verifier::rlimit(100)]
pub proof fn lemma_isqrt_bounds(n: nat)
    ensures
        isqrt_spec(n) * isqrt_spec(n) <= n,
        n < (isqrt_spec(n) + 1) * (isqrt_spec(n) + 1),
    decreases n,
{
    if n > 0 {
        lemma_isqrt_bounds((n - 1) as nat);
        let r = isqrt_spec((n - 1) as nat);
        lemma_sq_sum((r + 1) as int, 1);
        if (r + 1) * (r + 1) <= n {
            assert(n <= (r + 1) * (r + 1));
            assert((r + 1 + 1) * (r + 1 + 1) == (r + 1) * (r + 1) + 2 * ((r + 1) * 1) + 1);
        }
    } else {
        assert(isqrt_spec(n) == 0);
        assert((isqrt_spec(n) + 1) * (isqrt_spec(n) + 1) == 1) by (nonlinear_arith)
            requires
                isqrt_spec(n) == 0,
        ;
    }
}

/// Any integer sandwiched as a square root of `n` is `isqrt_spec(n)`.
pub proof fn lemma_isqrt_unique(n: nat, r: nat)
    requires
        r * r <= n,
        n < (r + 1) * (r + 1),
    ensures
        r == isqrt_spec(n),
{
    lemma_isqrt_bounds(n);
    let s = isqrt_spec(n);
    if r < s {
        assert(false) by (nonlinear_arith)
            requires
                r < s,
                s * s <= n,
                n < (r + 1) * (r + 1),
        ;
    }
    if s < r {
        assert(false) by (nonlinear_arith)
            requires
                s < r,
                r * r <= n,
                n < (s + 1) * (s + 1),
        ;
    }
}

/// Largest input the executable square root accepts.
pub const ISQRT_MAX: u64 = 400_000_000;

/// Executable integer square root by upward search; inputs stay small, so the
/// search is short.
pub fn isqrt(n: u64) -> (r: u64)
    requires
        n <= ISQRT_MAX,
    ensures
        r == isqrt_spec(n as nat),
        r * r <= n < (r + 1) * (r + 1),
        r <= 20_000,
{
    let mut r: u64 = 0;
    loop
        invariant
            n <= ISQRT_MAX,
            r <= 20_000,
            r * r <= n,
        ensures
            r * r <= n < (r + 1) * (r + 1),
        decreases 20_000 - r,
    {
        let next: u64 = r + 1;
        assert(next * next <= 400_040_001) by (nonlinear_arith)
            requires
                next <= 20_001,
        ;
        if next * next <= n {
            assert(next <= 20_000) by (nonlinear_arith)
                requires
                    next * next <= 400_000_000,
            ;
            r = next;
        } else {
            break;
        }
    }
    proof {
        lemma_isqrt_unique(n as nat, r as nat);
    }
    r
}

/// Executable truncating division on `i128`, matching `div_trunc`.
pub fn div_trunc_i128(a: i128, b: i128) -> (r: i128)
    requires
        b > 0,
        a > i128::MIN,
    ensures
        r as int == div_trunc(a as int, b as int),
{
    if a >= 0 {
        let q: u128 = (a as u128) / (b as u128);
        proof {
            lemma_div_nonincreasing(a as int, b as int);
        }
        q as i128
    } else {
        let m: u128 = ((-a) as u128) / (b as u128);
        proof {
            lemma_div_nonincreasing(-(a as int), b as int);
        }
        -(m as i128)
    }
}

} // verus!

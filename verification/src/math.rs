//! Fixed-point 2D vector arithmetic for the simulation core.
//!
//! Every length-like quantity is carried as an `i64` in micro-units:
//! `SCALE` fixed-point steps make one simulation unit. All derived
//! quantities (square roots, scaled divisions) truncate toward zero, and
//! every contract states the result exactly in those terms.

use vstd::prelude::*;

verus! {

/// Fixed-point steps per simulation unit.
pub const SCALE: i64 = 1_000_000;

/// Bound on the coordinates of any well-formed position or velocity.
pub const COORD_LIMIT: i64 = 1_000_000_000;

/// Bound under which all intermediate vectors of a tick stay; wide enough
/// that squares and cross terms fit in `i64`.
pub const WORK_LIMIT: i64 = 2_000_000_000;

/// A 2D vector in fixed-point coordinates.
#[derive(Clone, Copy, Debug, PartialEq, Eq, Structural)]
pub struct Vec2 {
    pub x: i64,
    pub y: i64,
}

/// Squared Euclidean norm of a vector.
pub open spec fn norm_sq(v: Vec2) -> int {
    v.x * v.x + v.y * v.y
}

/// Both coordinates lie within the given bound.
pub open spec fn within(v: Vec2, limit: int) -> bool {
    -limit <= v.x <= limit && -limit <= v.y <= limit
}

/// Truncating (toward zero) division, the semantics of the executable
/// divisions of this crate; `d` must be positive.
pub open spec fn tdiv(a: int, d: int) -> int {
    if a >= 0 {
        a / d
    } else {
        -((-a) / d)
    }
}

/// Mathematical absolute value.
pub open spec fn abs_i(a: int) -> int {
    if a >= 0 {
        a
    } else {
        -a
    }
}

/// The floor of the square root of a non-negative integer.
pub open spec fn sqrt_floor(n: int) -> int {
    choose|r: int| 0 <= r && #[trigger] (r * r) <= n && n < (r + 1) * (r + 1)
}

/// `sqrt_floor` is pinned down by its defining inequalities: any witness
/// of them is the floor square root.
pub proof fn lemma_sqrt_floor_unique(n: int, r: int)
    requires
        0 <= r,
        r * r <= n,
        n < (r + 1) * (r + 1),
    ensures
        sqrt_floor(n) == r,
{
    assert(exists|q: int| 0 <= q && #[trigger] (q * q) <= n && n < (q + 1) * (q + 1)) by {
        assert(0 <= r && r * r <= n && n < (r + 1) * (r + 1));
    }
    let s = sqrt_floor(n);
    assert(0 <= s && s * s <= n && n < (s + 1) * (s + 1));
    if s < r {
        assert((s + 1) * (s + 1) <= r * r) by (nonlinear_arith)
            requires 0 <= s, 0 <= r, s + 1 <= r;
    }
    if r < s {
        assert((r + 1) * (r + 1) <= s * s) by (nonlinear_arith)
            requires 0 <= s, 0 <= r, r + 1 <= s;
    }
}

/// A square bounded by `n` has its root bounded by the root of `n`.
pub proof fn lemma_abs_le_sqrt(n: int, r: int, a: int)
    requires
        0 <= r,
        r * r <= n,
        n < (r + 1) * (r + 1),
        a * a <= n,
    ensures
        abs_i(a) <= r,
{
    if abs_i(a) > r {
        assert((r + 1) * (r + 1) <= abs_i(a) * abs_i(a)) by (nonlinear_arith)
            requires 0 <= r, r + 1 <= abs_i(a);
        assert(abs_i(a) * abs_i(a) == a * a) by (nonlinear_arith);
    }
}

/// Floor square root by binary search over the answer.
pub fn isqrt(n: u64) -> (r: u64)
    ensures
        r * r <= n < (r + 1) * (r + 1),
        r == sqrt_floor(n as int),
        r <= 0xFFFF_FFFFu64,
{
    let mut lo: u64 = 0;
    let mut hi: u64 = 0xFFFF_FFFF;
    proof {
        assert((0xFFFF_FFFFu64 + 1) * (0xFFFF_FFFFu64 + 1) > u64::MAX) by (nonlinear_arith);
    }
    while lo < hi
        invariant
            lo <= hi <= 0xFFFF_FFFFu64,
            lo * lo <= n,
            n < (hi + 1) * (hi + 1),
        decreases hi - lo,
    {
        let mid: u64 = lo + (hi - lo + 1) / 2;
        assert(lo < mid <= hi);
        assert(mid * mid <= 0xFFFF_FFFFu64 * 0xFFFF_FFFFu64 <= u64::MAX) by (nonlinear_arith)
            requires mid <= 0xFFFF_FFFFu64;
        if mid * mid <= n {
            lo = mid;
        } else {
            hi = mid - 1;
        }
    }
    proof {
        lemma_sqrt_floor_unique(n as int, lo as int);
    }
    lo
}

/// Truncating division of a product: returns `tdiv(a * mul, d)`.
pub fn mul_div_trunc(a: i64, mul: i64, d: i64) -> (r: i64)
    requires
        0 < mul,
        0 < d,
        abs_i(a as int) * mul <= i64::MAX,
    ensures
        r == tdiv(a * mul, d as int),
        abs_i(r as int) * d <= abs_i(a as int) * mul,
{
    let neg: bool = a < 0;
    assert(abs_i(a as int) <= abs_i(a as int) * mul) by (nonlinear_arith)
        requires 0 <= abs_i(a as int), 1 <= mul;
    let mag: i64 = if a < 0 { -a } else { a };
    assert(mag * mul <= i64::MAX) by {
        assert(mag == abs_i(a as int));
    }
    assert(0 <= mag * mul) by (nonlinear_arith)
        requires 0 <= mag, 0 < mul;
    let p: u64 = (mag as u64) * (mul as u64);
    let q: u64 = p / (d as u64);
    proof {
        assert(p == mag * mul);
        assert(q == (mag * mul) / (d as int));
        vstd::arithmetic::div_mod::lemma_div_nonincreasing(mag * mul, d as int);
        vstd::arithmetic::div_mod::lemma_div_pos_is_pos(mag * mul, d as int);
        vstd::arithmetic::div_mod::lemma_remainder_lower(mag * mul, d as int);
        assert(q * d <= mag * mul);
        if neg {
            assert(a * mul == -(mag * mul)) by (nonlinear_arith)
                requires mag == -a;
            assert(tdiv(a * mul, d as int) == -q);
        } else {
            assert(tdiv(a * mul, d as int) == q);
        }
    }
    if neg {
        -(q as i64)
    } else {
        q as i64
    }
}

} // verus!

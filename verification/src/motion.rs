//! Per-tick velocity processing of the player body: gravity toward the
//! origin, multiplicative air drag, speed clamping, and the two rotational
//! impulses (steering thrust and collision jump).

use vstd::prelude::*;
use crate::math::{
    Vec2, SCALE, WORK_LIMIT, norm_sq, within, tdiv, abs_i, sqrt_floor,
    lemma_sqrt_floor_unique, lemma_abs_le_sqrt, isqrt, mul_div_trunc,
};

verus! {

/// Maximum speed any body may keep after clamping (70 units).
pub const MAX_SPEED: i64 = 70_000_000;

/// Below this magnitude (0.01 units) the clamp leaves a velocity alone.
pub const LOW_CUTOFF: i64 = 10_000;

/// Air-drag multiplier per tick: 95 / 100.
pub const DAMP_NUM: i64 = 95;

/// Air-drag divisor per tick.
pub const DAMP_DEN: i64 = 100;

/// Truncating division keeps the sign of the numerator and divides the
/// magnitude.
pub proof fn lemma_tdiv_abs(a: int, d: int)
    requires
        0 < d,
    ensures
        abs_i(tdiv(a, d)) == abs_i(a) / d,
        abs_i(tdiv(a, d)) * d <= abs_i(a),
        a >= 0 ==> tdiv(a, d) >= 0,
        a <= 0 ==> tdiv(a, d) <= 0,
{
    vstd::arithmetic::div_mod::lemma_div_pos_is_pos(abs_i(a), d);
    vstd::arithmetic::div_mod::lemma_fundamental_div_mod(abs_i(a), d);
    vstd::arithmetic::div_mod::lemma_mod_bound(abs_i(a), d);
    assert(abs_i(a) / d * d <= abs_i(a)) by (nonlinear_arith)
        requires abs_i(a) == d * (abs_i(a) / d) + abs_i(a) % d, abs_i(a) % d >= 0;
}

/// Rescaling a vector of known floor-root `m` to target length `c` by
/// truncating division lands, in squared norm, within a few `c` of `c*c`,
/// and never grows a coordinate past `c`.
#[verifier::rlimit(60)]
pub proof fn lemma_scale_to_length(vx: int, vy: int, m: int, c: int, qx: int, qy: int)
    requires
        1 <= c,
        1 <= m,
        2 * m >= c,
        vx * vx + vy * vy >= m * m,
        vx * vx + vy * vy < (m + 1) * (m + 1),
        abs_i(vx) <= m,
        abs_i(vy) <= m,
        qx == tdiv(vx * c, m),
        qy == tdiv(vy * c, m),
    ensures
        qx * qx + qy * qy <= c * c + 6 * c,
        qx * qx + qy * qy >= c * c - 4 * c,
        abs_i(qx) <= c,
        abs_i(qy) <= c,
        vx >= 0 ==> qx >= 0,
        vx <= 0 ==> qx <= 0,
        vy >= 0 ==> qy >= 0,
        vy <= 0 ==> qy <= 0,
{
    let ax = abs_i(vx) * c;
    let ay = abs_i(vy) * c;
    assert(abs_i(vx) * abs_i(vx) == vx * vx) by (nonlinear_arith)
        requires abs_i(vx) == vx || abs_i(vx) == -vx;
    assert(abs_i(vy) * abs_i(vy) == vy * vy) by (nonlinear_arith)
        requires abs_i(vy) == vy || abs_i(vy) == -vy;
    lemma_tdiv_abs(vx * c, m);
    lemma_tdiv_abs(vy * c, m);
    assert(abs_i(vx * c) == ax) by (nonlinear_arith)
        requires
            c >= 1,
            ax == abs_i(vx) * c,
            abs_i(vx) == vx || abs_i(vx) == -vx,
            abs_i(vx) >= 0,
            abs_i(vx * c) == vx * c || abs_i(vx * c) == -(vx * c),
            abs_i(vx * c) >= 0;
    assert(abs_i(vy * c) == ay) by (nonlinear_arith)
        requires
            c >= 1,
            ay == abs_i(vy) * c,
            abs_i(vy) == vy || abs_i(vy) == -vy,
            abs_i(vy) >= 0,
            abs_i(vy * c) == vy * c || abs_i(vy * c) == -(vy * c),
            abs_i(vy * c) >= 0;
    assert(vx >= 0 ==> vx * c >= 0) by (nonlinear_arith) requires c >= 1;
    assert(vx <= 0 ==> vx * c <= 0) by (nonlinear_arith) requires c >= 1;
    assert(vy >= 0 ==> vy * c >= 0) by (nonlinear_arith) requires c >= 1;
    assert(vy <= 0 ==> vy * c <= 0) by (nonlinear_arith) requires c >= 1;
    let qxa = abs_i(qx);
    let qya = abs_i(qy);
    assert(qxa == ax / m && qya == ay / m);
    vstd::arithmetic::div_mod::lemma_fundamental_div_mod(ax, m);
    vstd::arithmetic::div_mod::lemma_fundamental_div_mod(ay, m);
    vstd::arithmetic::div_mod::lemma_mod_bound(ax, m);
    vstd::arithmetic::div_mod::lemma_mod_bound(ay, m);
    vstd::arithmetic::div_mod::lemma_div_pos_is_pos(ax, m);
    vstd::arithmetic::div_mod::lemma_div_pos_is_pos(ay, m);
    let rx = ax % m;
    let ry = ay % m;
    assert(ax == m * qxa + rx && 0 <= rx < m);
    assert(ay == m * qya + ry && 0 <= ry < m);
    // coordinate bound: qxa * m <= ax <= m * c, so qxa <= c
    assert(ax <= m * c && ay <= m * c) by (nonlinear_arith)
        requires abs_i(vx) <= m, abs_i(vy) <= m, c >= 1,
            ax == abs_i(vx) * c, ay == abs_i(vy) * c;
    assert(qxa <= c && qya <= c) by (nonlinear_arith)
        requires m * qxa <= ax <= m * c, m * qya <= ay <= m * c, m >= 1, qxa >= 0, qya >= 0;
    // upper bound on the squared norm
    assert((qxa * qxa + qya * qya) * (m * m) <= ax * ax + ay * ay) by (nonlinear_arith)
        requires
            ax == m * qxa + rx, ay == m * qya + ry,
            0 <= rx, 0 <= ry, qxa >= 0, qya >= 0, m >= 1;
    assert(ax * ax + ay * ay < (c * c) * ((m + 1) * (m + 1))) by (nonlinear_arith)
        requires
            ax == abs_i(vx) * c, ay == abs_i(vy) * c, c >= 1,
            abs_i(vx) * abs_i(vx) == vx * vx, abs_i(vy) * abs_i(vy) == vy * vy,
            vx * vx + vy * vy < (m + 1) * (m + 1);
    assert((c * c) * ((m + 1) * (m + 1)) <= (c * c + 6 * c + 1) * (m * m)) by (nonlinear_arith)
        requires 1 <= c, 1 <= m, 2 * m >= c;
    assert(qxa * qxa + qya * qya <= c * c + 6 * c) by (nonlinear_arith)
        requires
            (qxa * qxa + qya * qya) * (m * m) < (c * c + 6 * c + 1) * (m * m),
            m >= 1;
    // lower bound on the squared norm, one coordinate at a time
    assert(qxa * qxa * (m * m) >= ax * ax - 2 * m * ax) by (nonlinear_arith)
        requires ax == m * qxa + rx, 0 <= rx < m, qxa >= 0, m >= 1, ax >= 0;
    assert(qya * qya * (m * m) >= ay * ay - 2 * m * ay) by (nonlinear_arith)
        requires ay == m * qya + ry, 0 <= ry < m, qya >= 0, m >= 1, ay >= 0;
    let nsq = vx * vx + vy * vy;
    let va = abs_i(vx);
    let vb = abs_i(vy);
    assert(ax * ax + ay * ay == (c * c) * nsq) by (nonlinear_arith)
        requires
            ax == va * c, ay == vb * c,
            va * va == vx * vx, vb * vb == vy * vy,
            nsq == vx * vx + vy * vy;
    assert((c * c) * nsq >= (c * c) * (m * m)) by (nonlinear_arith)
        requires nsq >= m * m, c >= 1;
    assert(2 * m * ax + 2 * m * ay <= 4 * c * (m * m)) by (nonlinear_arith)
        requires ax <= m * c, ay <= m * c, m >= 1;
    assert((c * c) * (m * m) - 4 * c * (m * m) == (c * c - 4 * c) * (m * m))
        by (nonlinear_arith);
    assert((qxa * qxa + qya * qya) * (m * m)
        == qxa * qxa * (m * m) + qya * qya * (m * m)) by (nonlinear_arith);
    assert(qxa * qxa + qya * qya >= c * c - 4 * c) by (nonlinear_arith)
        requires
            (qxa * qxa + qya * qya) * (m * m) >= (c * c - 4 * c) * (m * m),
            m >= 1;
    assert(qx * qx == qxa * qxa) by (nonlinear_arith)
        requires qxa == qx || qxa == -qx;
    assert(qy * qy == qya * qya) by (nonlinear_arith)
        requires qya == qy || qya == -qy;
}

/// Negating the numerator negates a truncating division.
pub proof fn lemma_tdiv_neg(a: int, d: int)
    requires
        0 < d,
    ensures
        tdiv(-a, d) == -tdiv(a, d),
{
    vstd::arithmetic::div_mod::lemma_div_of0(d);
}

/// Squared norm, computed in `i64`.
pub fn norm_sq_exec(v: Vec2) -> (n: i64)
    requires
        within(v, WORK_LIMIT as int),
    ensures
        n == norm_sq(v),
        n >= 0,
{
    proof {
        assert(0 <= v.x * v.x <= WORK_LIMIT * WORK_LIMIT) by (nonlinear_arith)
            requires -WORK_LIMIT <= v.x <= WORK_LIMIT;
        assert(0 <= v.y * v.y <= WORK_LIMIT * WORK_LIMIT) by (nonlinear_arith)
            requires -WORK_LIMIT <= v.y <= WORK_LIMIT;
    }
    v.x * v.x + v.y * v.y
}

/// Floor root of the squared norm of `v`.
pub open spec fn vnorm(v: Vec2) -> int {
    sqrt_floor(norm_sq(v))
}

/// Component `a` of the direction of a vector whose floor-norm is `m`,
/// at fixed-point length `SCALE`.
pub open spec fn unit_comp(a: int, m: int) -> int {
    tdiv(a * SCALE, m)
}

/// Squared norm lies within a small band around one squared unit; what a
/// normalized nonzero vector and the spawn-ring directions satisfy.
pub open spec fn unit_like(u: Vec2) -> bool {
    SCALE * SCALE - 4 * SCALE <= norm_sq(u) <= SCALE * SCALE + 6 * SCALE
}

/// Vectors at or above half a unit in length normalize accurately.
pub const HALF_UNIT_SQ: i64 = 250_000_000_000;

/// Rescale a nonzero vector to fixed-point length `SCALE`, truncating
/// toward zero, keeping the direction (signs) of both components.
pub fn normalize(v: Vec2) -> (u: Vec2)
    requires
        within(v, WORK_LIMIT as int),
        norm_sq(v) >= 1,
    ensures
        u.x == unit_comp(v.x as int, vnorm(v)),
        u.y == unit_comp(v.y as int, vnorm(v)),
        abs_i(u.x as int) <= SCALE,
        abs_i(u.y as int) <= SCALE,
        v.x >= 0 ==> u.x >= 0,
        v.x <= 0 ==> u.x <= 0,
        v.y >= 0 ==> u.y >= 0,
        v.y <= 0 ==> u.y <= 0,
        norm_sq(v) >= HALF_UNIT_SQ ==> unit_like(u),
        vnorm(v) >= 1,
{
    let nsq = norm_sq_exec(v);
    let m64 = isqrt(nsq as u64);
    proof {
        assert(nsq as u64 == nsq as int);
        assert(m64 >= 1) by (nonlinear_arith)
            requires (nsq as int) < (m64 + 1) * (m64 + 1), nsq >= 1, m64 >= 0;
    }
    let m: i64 = m64 as i64;
    proof {
        assert(v.y * v.y >= 0) by (nonlinear_arith);
        assert(v.x * v.x >= 0) by (nonlinear_arith);
        lemma_abs_le_sqrt(nsq as int, m as int, v.x as int);
        lemma_abs_le_sqrt(nsq as int, m as int, v.y as int);
        assert(abs_i(v.x as int) * SCALE <= m * SCALE <= i64::MAX) by (nonlinear_arith)
            requires abs_i(v.x as int) <= m, 0 <= m <= 0xFFFF_FFFFi64, SCALE == 1_000_000;
        assert(abs_i(v.y as int) * SCALE <= m * SCALE <= i64::MAX) by (nonlinear_arith)
            requires abs_i(v.y as int) <= m, 0 <= m <= 0xFFFF_FFFFi64, SCALE == 1_000_000;
    }
    let ux = mul_div_trunc(v.x, SCALE, m);
    let uy = mul_div_trunc(v.y, SCALE, m);
    proof {
        lemma_tdiv_abs(v.x * SCALE, m as int);
        lemma_tdiv_abs(v.y * SCALE, m as int);
        assert(v.x >= 0 ==> v.x * SCALE >= 0) by (nonlinear_arith) requires SCALE >= 1;
        assert(v.x <= 0 ==> v.x * SCALE <= 0) by (nonlinear_arith) requires SCALE >= 1;
        assert(v.y >= 0 ==> v.y * SCALE >= 0) by (nonlinear_arith) requires SCALE >= 1;
        assert(v.y <= 0 ==> v.y * SCALE <= 0) by (nonlinear_arith) requires SCALE >= 1;
        assert(abs_i(ux as int) <= SCALE && abs_i(uy as int) <= SCALE) by (nonlinear_arith)
            requires
                abs_i(ux as int) * m <= abs_i(v.x as int) * SCALE,
                abs_i(uy as int) * m <= abs_i(v.y as int) * SCALE,
                abs_i(v.x as int) <= m,
                abs_i(v.y as int) <= m,
                m >= 1,
                SCALE >= 1,
                abs_i(ux as int) >= 0,
                abs_i(uy as int) >= 0;
        if norm_sq(v) >= HALF_UNIT_SQ {
            assert(m >= 500_000) by {
                if m < 500_000 {
                    assert((m + 1) * (m + 1) <= 500_000 * 500_000) by (nonlinear_arith)
                        requires 0 <= m, m + 1 <= 500_000;
                }
            }
            lemma_scale_to_length(
                v.x as int, v.y as int, m as int, SCALE as int, ux as int, uy as int);
        }
    }
    Vec2 { x: ux, y: uy }
}

/// First component of the clamp of the vector `(x, y)`.
pub open spec fn clamp_x_of(x: int, y: int) -> int {
    if sqrt_floor(x * x + y * y) <= MAX_SPEED {
        x
    } else {
        tdiv(x * MAX_SPEED, sqrt_floor(x * x + y * y))
    }
}

/// Second component of the clamp of the vector `(x, y)`.
pub open spec fn clamp_y_of(x: int, y: int) -> int {
    if sqrt_floor(x * x + y * y) <= MAX_SPEED {
        y
    } else {
        tdiv(y * MAX_SPEED, sqrt_floor(x * x + y * y))
    }
}

/// Cap a velocity at `MAX_SPEED`, keeping its direction. A velocity
/// already at or under the cap (and in particular one under the
/// `LOW_CUTOFF` stillness threshold) comes back unchanged.
pub fn clamp_velocity(v: Vec2) -> (r: Vec2)
    requires
        within(v, WORK_LIMIT as int),
    ensures
        r.x == clamp_x_of(v.x as int, v.y as int),
        r.y == clamp_y_of(v.x as int, v.y as int),
        vnorm(v) <= LOW_CUTOFF ==> r == v,
        vnorm(v) <= MAX_SPEED ==> r == v,
        vnorm(v) > MAX_SPEED ==> {
            &&& r.x == tdiv(v.x * MAX_SPEED, vnorm(v))
            &&& r.y == tdiv(v.y * MAX_SPEED, vnorm(v))
            &&& norm_sq(r) >= MAX_SPEED * MAX_SPEED - 4 * MAX_SPEED
        },
        norm_sq(r) <= MAX_SPEED * MAX_SPEED + 6 * MAX_SPEED,
        abs_i(r.x as int) <= abs_i(v.x as int),
        abs_i(r.y as int) <= abs_i(v.y as int),
        v.x >= 0 ==> r.x >= 0,
        v.x <= 0 ==> r.x <= 0,
        v.y >= 0 ==> r.y >= 0,
        v.y <= 0 ==> r.y <= 0,
{
    let nsq = norm_sq_exec(v);
    let m64 = isqrt(nsq as u64);
    let m: i64 = m64 as i64;
    proof {
        assert(v.y * v.y >= 0) by (nonlinear_arith);
        assert(v.x * v.x >= 0) by (nonlinear_arith);
        lemma_abs_le_sqrt(nsq as int, m as int, v.x as int);
        lemma_abs_le_sqrt(nsq as int, m as int, v.y as int);
    }
    if m > MAX_SPEED {
        proof {
            assert(abs_i(v.x as int) * MAX_SPEED <= i64::MAX) by (nonlinear_arith)
                requires abs_i(v.x as int) <= WORK_LIMIT, WORK_LIMIT == 2_000_000_000,
                    MAX_SPEED == 70_000_000;
            assert(abs_i(v.y as int) * MAX_SPEED <= i64::MAX) by (nonlinear_arith)
                requires abs_i(v.y as int) <= WORK_LIMIT, WORK_LIMIT == 2_000_000_000,
                    MAX_SPEED == 70_000_000;
        }
        let rx = mul_div_trunc(v.x, MAX_SPEED, m);
        let ry = mul_div_trunc(v.y, MAX_SPEED, m);
        proof {
            lemma_scale_to_length(
                v.x as int, v.y as int, m as int, MAX_SPEED as int, rx as int, ry as int);
            lemma_tdiv_abs(v.x * MAX_SPEED, m as int);
            lemma_tdiv_abs(v.y * MAX_SPEED, m as int);
            assert(abs_i(rx as int) <= abs_i(v.x as int)) by (nonlinear_arith)
                requires
                    abs_i(rx as int) * m <= abs_i(v.x as int) * MAX_SPEED,
                    0 < MAX_SPEED < m,
                    abs_i(rx as int) >= 0,
                    abs_i(v.x as int) >= 0;
            assert(abs_i(ry as int) <= abs_i(v.y as int)) by (nonlinear_arith)
                requires
                    abs_i(ry as int) * m <= abs_i(v.y as int) * MAX_SPEED,
                    0 < MAX_SPEED < m,
                    abs_i(ry as int) >= 0,
                    abs_i(v.y as int) >= 0;
        }
        Vec2 { x: rx, y: ry }
    } else {
        proof {
            assert(norm_sq(v) <= MAX_SPEED * MAX_SPEED + 6 * MAX_SPEED) by (nonlinear_arith)
                requires
                    norm_sq(v) < (m + 1) * (m + 1),
                    0 <= m <= MAX_SPEED,
                    MAX_SPEED == 70_000_000;
        }
        v
    }
}

/// One application of air drag to a single velocity component.
pub open spec fn damp1(c: int) -> int {
    tdiv(c * 95, 100)
}

/// `n` applications of air drag to a single velocity component.
pub open spec fn damp_iter(c: int, n: nat) -> int
    decreases n,
{
    if n == 0 {
        c
    } else {
        damp1(damp_iter(c, (n - 1) as nat))
    }
}

/// One drag step scales the magnitude by at most 95/100, and shrinks any
/// nonzero component by at least one fixed-point step.
pub proof fn lemma_damp_step(c: int)
    ensures
        abs_i(damp1(c)) * 100 <= abs_i(c) * 95,
        abs_i(damp1(c)) <= abs_i(c),
        c != 0 ==> abs_i(damp1(c)) <= abs_i(c) - 1,
        c == 0 ==> damp1(c) == 0,
{
    lemma_tdiv_abs(c * 95, 100);
    assert(abs_i(c * 95) == abs_i(c) * 95) by (nonlinear_arith)
        requires abs_i(c) == c || abs_i(c) == -c;
    vstd::arithmetic::div_mod::lemma_div_of0(100);
}

/// Drag applied `n` times decays a component geometrically: the magnitude
/// after `n` steps, times `100^n`, is at most the start times `95^n`; and
/// a component is driven exactly to zero in at most its own magnitude of
/// steps.
pub proof fn lemma_damping_decay(c: int, n: nat)
    ensures
        abs_i(damp_iter(c, n)) * vstd::arithmetic::power::pow(100, n)
            <= abs_i(c) * vstd::arithmetic::power::pow(95, n),
        abs_i(damp_iter(c, n)) <= abs_i(c),
        abs_i(damp_iter(c, n)) <= abs_i(c) - n || damp_iter(c, n) == 0,
        n >= abs_i(c) ==> damp_iter(c, n) == 0,
    decreases n,
{
    let p100 = vstd::arithmetic::power::pow(100, n);
    let p95 = vstd::arithmetic::power::pow(95, n);
    if n == 0 {
        assert(p100 == 1 && p95 == 1) by {
            vstd::arithmetic::power::lemma_pow0(100);
            vstd::arithmetic::power::lemma_pow0(95);
        }
    } else {
        let k = (n - 1) as nat;
        let d = damp_iter(c, k);
        lemma_damping_decay(c, k);
        lemma_damp_step(d);
        let q100 = vstd::arithmetic::power::pow(100, k);
        let q95 = vstd::arithmetic::power::pow(95, k);
        assert(q100 > 0) by { vstd::arithmetic::power::lemma_pow_positive(100, k); }
        assert(q95 > 0) by { vstd::arithmetic::power::lemma_pow_positive(95, k); }
        assert(p100 == 100 * q100) by {
            vstd::arithmetic::power::lemma_pow_adds(100, 1, k);
            vstd::arithmetic::power::lemma_pow1(100);
            assert(n == 1 + k);
        }
        assert(p95 == 95 * q95) by {
            vstd::arithmetic::power::lemma_pow_adds(95, 1, k);
            vstd::arithmetic::power::lemma_pow1(95);
            assert(n == 1 + k);
        }
        assert(abs_i(damp1(d)) * (100 * q100) <= (abs_i(d) * 95) * q100) by (nonlinear_arith)
            requires abs_i(damp1(d)) * 100 <= abs_i(d) * 95, q100 > 0;
        assert((abs_i(d) * 95) * q100 <= 95 * (abs_i(c) * q95)) by (nonlinear_arith)
            requires abs_i(d) * q100 <= abs_i(c) * q95, q100 > 0, q95 > 0;
        assert(95 * (abs_i(c) * q95) == abs_i(c) * (95 * q95)) by (nonlinear_arith);
        if d == 0 {
            assert(damp_iter(c, n) == 0);
        }
    }
}

/// Multiply a velocity by the 95/100 drag factor, truncating toward zero.
pub fn damp_velocity(v: Vec2) -> (r: Vec2)
    requires
        within(v, WORK_LIMIT as int),
    ensures
        r.x == damp1(v.x as int),
        r.y == damp1(v.y as int),
        abs_i(r.x as int) <= abs_i(v.x as int),
        abs_i(r.y as int) <= abs_i(v.y as int),
{
    proof {
        assert(abs_i(v.x as int) * 95 <= i64::MAX) by (nonlinear_arith)
            requires abs_i(v.x as int) <= WORK_LIMIT, WORK_LIMIT == 2_000_000_000;
        assert(abs_i(v.y as int) * 95 <= i64::MAX) by (nonlinear_arith)
            requires abs_i(v.y as int) <= WORK_LIMIT, WORK_LIMIT == 2_000_000_000;
    }
    let rx = mul_div_trunc(v.x, DAMP_NUM, DAMP_DEN);
    let ry = mul_div_trunc(v.y, DAMP_NUM, DAMP_DEN);
    proof {
        lemma_damp_step(v.x as int);
        lemma_damp_step(v.y as int);
    }
    Vec2 { x: rx, y: ry }
}

/// Gravitational constant of the field.
pub const GRAV_G: i64 = 100;

/// Softening length (0.0001 units) keeping the field finite at the origin.
pub const GRAV_EPS: i64 = 100;

/// Largest admitted body mass.
pub const MASS_LIMIT: i64 = 90;

/// Numerator of the field strength for mass `m`, in fixed-point units.
pub open spec fn gravity_num(m: int) -> int {
    GRAV_G * m * SCALE
}

/// Integer field strength at floor-distance `n` from the origin: the
/// inverse-distance coefficient `G * m / (n + eps)` in fixed point.
pub open spec fn gravity_strength(m: int, n: int) -> int {
    tdiv(gravity_num(m), n + GRAV_EPS)
}

/// One force component: the position component scaled by the negated
/// field strength, rounded toward zero.
pub open spec fn gravity_comp(a: int, m: int, n: int) -> int {
    -tdiv(a * gravity_num(m), n + GRAV_EPS)
}

/// The inverse-distance field strength decays in the distance: the
/// computed strength never grows with `n`; as exact fractions the decay is
/// strict, stated cross-multiplied
/// (`num/(n1+eps) > num/(n2+eps)` iff `num*(n1+eps) < num*(n2+eps)`);
/// and at the origin the strength is the finite value `num / eps`.
pub proof fn lemma_gravity_strength_decreasing(m: int, n1: int, n2: int)
    requires
        1 <= m,
        0 <= n1 < n2,
    ensures
        gravity_strength(m, n2) <= gravity_strength(m, n1),
        gravity_num(m) * (n1 + GRAV_EPS) < gravity_num(m) * (n2 + GRAV_EPS),
        gravity_strength(m, 0) == gravity_num(m) / (GRAV_EPS as int),
{
    assert(gravity_num(m) >= 100 * 1_000_000) by (nonlinear_arith)
        requires m >= 1;
    vstd::arithmetic::div_mod::lemma_div_is_ordered_by_denominator(
        gravity_num(m), n1 + GRAV_EPS, n2 + GRAV_EPS);
    assert(gravity_num(m) * (n1 + GRAV_EPS) < gravity_num(m) * (n2 + GRAV_EPS))
        by (nonlinear_arith)
        requires gravity_num(m) > 0, n1 < n2;
}

/// Attractive force toward the origin on a body of mass `m` at `p`:
/// `-G * m / (|p| + eps)` in each coordinate, finite everywhere, zero at
/// the origin itself.
pub fn gravity_force(p: Vec2, m: i64) -> (f: Vec2)
    requires
        within(p, crate::math::COORD_LIMIT as int),
        1 <= m <= MASS_LIMIT,
    ensures
        f.x == gravity_comp(p.x as int, m as int, vnorm(p)),
        f.y == gravity_comp(p.y as int, m as int, vnorm(p)),
        abs_i(f.x as int) <= gravity_num(m as int),
        abs_i(f.y as int) <= gravity_num(m as int),
        p.x >= 0 ==> f.x <= 0,
        p.x <= 0 ==> f.x >= 0,
        p.y >= 0 ==> f.y <= 0,
        p.y <= 0 ==> f.y >= 0,
        p.x == 0 && p.y == 0 ==> f.x == 0 && f.y == 0,
{
    let nsq = norm_sq_exec(p);
    let m64 = isqrt(nsq as u64);
    let n: i64 = m64 as i64;
    let gm: i64 = GRAV_G * m * SCALE;
    proof {
        assert(nsq as u64 == nsq as int);
        assert(p.y * p.y >= 0) by (nonlinear_arith);
        assert(p.x * p.x >= 0) by (nonlinear_arith);
        lemma_abs_le_sqrt(nsq as int, n as int, p.x as int);
        lemma_abs_le_sqrt(nsq as int, n as int, p.y as int);
        assert(gm <= 9_000_000_000i64);
        assert(gm > 0);
        assert(abs_i(p.x as int) * gm <= i64::MAX) by (nonlinear_arith)
            requires abs_i(p.x as int) <= 1_000_000_000, 0 < gm <= 9_000_000_000i64;
        assert(abs_i(p.y as int) * gm <= i64::MAX) by (nonlinear_arith)
            requires abs_i(p.y as int) <= 1_000_000_000, 0 < gm <= 9_000_000_000i64;
    }
    let qx = mul_div_trunc(p.x, gm, n + GRAV_EPS);
    let qy = mul_div_trunc(p.y, gm, n + GRAV_EPS);
    proof {
        lemma_tdiv_abs(p.x * gm, n + GRAV_EPS);
        lemma_tdiv_abs(p.y * gm, n + GRAV_EPS);
        assert(abs_i(qx as int) <= gm && abs_i(qy as int) <= gm) by (nonlinear_arith)
            requires
                abs_i(qx as int) * (n + GRAV_EPS) <= abs_i(p.x as int) * gm,
                abs_i(qy as int) * (n + GRAV_EPS) <= abs_i(p.y as int) * gm,
                abs_i(p.x as int) <= n,
                abs_i(p.y as int) <= n,
                GRAV_EPS > 0,
                n >= 0,
                gm > 0,
                abs_i(qx as int) >= 0,
                abs_i(qy as int) >= 0;
        assert(p.x >= 0 ==> p.x * gm >= 0) by (nonlinear_arith) requires gm > 0;
        assert(p.x <= 0 ==> p.x * gm <= 0) by (nonlinear_arith) requires gm > 0;
        assert(p.y >= 0 ==> p.y * gm >= 0) by (nonlinear_arith) requires gm > 0;
        assert(p.y <= 0 ==> p.y * gm <= 0) by (nonlinear_arith) requires gm > 0;
        if p.x == 0 && p.y == 0 {
            vstd::arithmetic::div_mod::lemma_div_of0(n + GRAV_EPS);
        }
    }
    Vec2 { x: -qx, y: -qy }
}

/// Steering-thrust strength (0.8 units).
pub const THRUST_POWER: i64 = 800_000;

/// Jump-impulse strength on a beneficial collision (70 units).
pub const JUMP_POWER: i64 = 70_000_000;

/// Hardware-to-simulation unit conversion divisor.
pub const PIXELS_PER_UNIT: i64 = 15;

/// Divisor taking a `SCALE`-length direction times a power constant down
/// to a velocity change: `SCALE * PIXELS_PER_UNIT`.
pub const IMPULSE_DEN: i64 = 15_000_000;

/// One component of an impulse along direction component `u` (a
/// `SCALE`-length unit direction) with the given power constant.
pub open spec fn impulse_comp(u: int, power: int) -> int {
    tdiv(u * power, IMPULSE_DEN as int)
}

/// Steering-thrust velocity change at position `p`: the unit direction of
/// `p` rotated by +90 degrees and negated, scaled by `THRUST_POWER` and
/// the unit conversion; zero at the degenerate origin position.
pub open spec fn thrust_dx(p: Vec2) -> int {
    if p.x == 0 && p.y == 0 {
        0
    } else {
        impulse_comp(unit_comp(p.y as int, vnorm(p)), THRUST_POWER as int)
    }
}

/// Second component of the steering thrust; see `thrust_dx`.
pub open spec fn thrust_dy(p: Vec2) -> int {
    if p.x == 0 && p.y == 0 {
        0
    } else {
        impulse_comp(-unit_comp(p.x as int, vnorm(p)), THRUST_POWER as int)
    }
}

/// Tangential steering impulse: perpendicular to the radius vector, so
/// that held input produces orbital thrust.
pub fn thrust_delta(p: Vec2) -> (d: Vec2)
    requires
        within(p, crate::math::COORD_LIMIT as int),
    ensures
        d.x == thrust_dx(p),
        d.y == thrust_dy(p),
        abs_i(d.x as int) <= THRUST_POWER,
        abs_i(d.y as int) <= THRUST_POWER,
{
    if p.x == 0 && p.y == 0 {
        Vec2 { x: 0, y: 0 }
    } else {
        let w = Vec2 { x: p.y, y: -p.x };
        proof {
            assert(norm_sq(w) == norm_sq(p)) by (nonlinear_arith)
                requires w.x == p.y, w.y == -p.x;
            assert(norm_sq(p) >= 1) by (nonlinear_arith)
                requires !(p.x == 0 && p.y == 0);
        }
        let u = normalize(w);
        let dx = mul_div_trunc(u.x, THRUST_POWER, IMPULSE_DEN);
        let dy = mul_div_trunc(u.y, THRUST_POWER, IMPULSE_DEN);
        proof {
            lemma_tdiv_neg(p.x * SCALE, vnorm(p));
            assert((-p.x) * SCALE == -(p.x * SCALE)) by (nonlinear_arith);
            lemma_tdiv_abs(u.x * THRUST_POWER, IMPULSE_DEN as int);
            lemma_tdiv_abs(u.y * THRUST_POWER, IMPULSE_DEN as int);
            assert(abs_i(u.x * THRUST_POWER) == abs_i(u.x as int) * THRUST_POWER)
                by (nonlinear_arith)
                requires abs_i(u.x as int) == u.x || abs_i(u.x as int) == -u.x;
            assert(abs_i(u.y * THRUST_POWER) == abs_i(u.y as int) * THRUST_POWER)
                by (nonlinear_arith)
                requires abs_i(u.y as int) == u.y || abs_i(u.y as int) == -u.y;
            assert(abs_i(dx as int) <= THRUST_POWER && abs_i(dy as int) <= THRUST_POWER)
                by (nonlinear_arith)
                requires
                    abs_i(dx as int) * IMPULSE_DEN <= abs_i(u.x as int) * THRUST_POWER,
                    abs_i(dy as int) * IMPULSE_DEN <= abs_i(u.y as int) * THRUST_POWER,
                    abs_i(u.x as int) <= SCALE,
                    abs_i(u.y as int) <= SCALE,
                    SCALE * THRUST_POWER <= THRUST_POWER * IMPULSE_DEN,
                    IMPULSE_DEN > 0,
                    abs_i(dx as int) >= 0,
                    abs_i(dy as int) >= 0;
        }
        Vec2 { x: dx, y: dy }
    }
}

/// First component of the jump impulse at position `p`: the unit
/// direction of `p` rotated by +135 degrees and negated (computed from
/// the unnormalized `(x + y, y - x)`, which points the same way), scaled
/// by `JUMP_POWER` and the unit conversion; zero at the origin.
pub open spec fn jump_dx(p: Vec2) -> int {
    if p.x == 0 && p.y == 0 {
        0
    } else {
        impulse_comp(
            tdiv((p.x + p.y) * SCALE, sqrt_floor((p.x + p.y) * (p.x + p.y) + (p.y - p.x) * (p.y - p.x))),
            JUMP_POWER as int)
    }
}

/// Second component of the jump impulse; see `jump_dx`.
pub open spec fn jump_dy(p: Vec2) -> int {
    if p.x == 0 && p.y == 0 {
        0
    } else {
        impulse_comp(
            tdiv((p.y - p.x) * SCALE, sqrt_floor((p.x + p.y) * (p.x + p.y) + (p.y - p.x) * (p.y - p.x))),
            JUMP_POWER as int)
    }
}

/// Bound on either component of a jump impulse.
pub const JUMP_DELTA_LIMIT: i64 = 4_700_000;

/// Bounce impulse applied to the player when it deflects an obstacle:
/// like the steering thrust but at +135 degrees and with `JUMP_POWER`.
pub fn jump_delta(p: Vec2) -> (d: Vec2)
    requires
        within(p, crate::math::COORD_LIMIT as int),
    ensures
        d.x == jump_dx(p),
        d.y == jump_dy(p),
        abs_i(d.x as int) <= JUMP_DELTA_LIMIT,
        abs_i(d.y as int) <= JUMP_DELTA_LIMIT,
{
    if p.x == 0 && p.y == 0 {
        Vec2 { x: 0, y: 0 }
    } else {
        let w = Vec2 { x: p.x + p.y, y: p.y - p.x };
        proof {
            assert(norm_sq(w) >= 1 && norm_sq(w) == (p.x + p.y) * (p.x + p.y) + (p.y - p.x) * (p.y - p.x))
                by (nonlinear_arith)
                requires
                    w.x == p.x + p.y, w.y == p.y - p.x,
                    !(p.x == 0 && p.y == 0),
                    -1_000_000_000 <= p.x <= 1_000_000_000,
                    -1_000_000_000 <= p.y <= 1_000_000_000;
        }
        let u = normalize(w);
        let dx = mul_div_trunc(u.x, JUMP_POWER, IMPULSE_DEN);
        let dy = mul_div_trunc(u.y, JUMP_POWER, IMPULSE_DEN);
        proof {
            lemma_tdiv_abs(u.x * JUMP_POWER, IMPULSE_DEN as int);
            lemma_tdiv_abs(u.y * JUMP_POWER, IMPULSE_DEN as int);
            assert(abs_i(u.x * JUMP_POWER) == abs_i(u.x as int) * JUMP_POWER)
                by (nonlinear_arith)
                requires abs_i(u.x as int) == u.x || abs_i(u.x as int) == -u.x;
            assert(abs_i(u.y * JUMP_POWER) == abs_i(u.y as int) * JUMP_POWER)
                by (nonlinear_arith)
                requires abs_i(u.y as int) == u.y || abs_i(u.y as int) == -u.y;
            assert(abs_i(dx as int) <= JUMP_DELTA_LIMIT && abs_i(dy as int) <= JUMP_DELTA_LIMIT)
                by (nonlinear_arith)
                requires
                    abs_i(dx as int) * IMPULSE_DEN <= abs_i(u.x as int) * JUMP_POWER,
                    abs_i(dy as int) * IMPULSE_DEN <= abs_i(u.y as int) * JUMP_POWER,
                    abs_i(u.x as int) <= SCALE,
                    abs_i(u.y as int) <= SCALE,
                    SCALE == 1_000_000,
                    JUMP_POWER == 70_000_000,
                    IMPULSE_DEN == 15_000_000,
                    JUMP_DELTA_LIMIT == 4_700_000,
                    abs_i(dx as int) >= 0,
                    abs_i(dy as int) >= 0;
        }
        Vec2 { x: dx, y: dy }
    }
}

} // verus!

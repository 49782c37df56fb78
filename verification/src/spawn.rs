//! Obstacle spawning: the recurring spawn timer, the one-shot ring belt
//! of evenly spaced directions, and random directions for the emitter.

use vstd::prelude::*;
use crate::math::{Vec2, SCALE, within, abs_i};
use crate::motion::{normalize, unit_like, HALF_UNIT_SQ};
use crate::rng::rand_i64;

verus! {

/// Period of the recurring emitter, in milliseconds (2 seconds).
pub const SPAWN_PERIOD_MS: u32 = 2000;

/// Recurring countdown that fires at most once per tick, then resets to
/// its period; elapsed time beyond one period is discarded, so there are
/// no catch-up bursts.
#[derive(Clone, Copy, Debug, PartialEq, Eq, Structural)]
pub struct SpawnTimer {
    pub remaining_ms: u32,
    pub period_ms: u32,
}

/// Timer well-formedness: a positive period bounds the remainder.
pub open spec fn timer_ok(t: SpawnTimer) -> bool {
    1 <= t.period_ms && 1 <= t.remaining_ms <= t.period_ms
}

impl SpawnTimer {
    /// A fresh emitter timer with the standard period.
    pub fn new() -> (t: SpawnTimer)
        ensures
            timer_ok(t),
            t.period_ms == SPAWN_PERIOD_MS,
            t.remaining_ms == SPAWN_PERIOD_MS,
    {
        SpawnTimer { remaining_ms: SPAWN_PERIOD_MS, period_ms: SPAWN_PERIOD_MS }
    }

    /// Advance by `dt_ms`; reports whether the timer fired this tick.
    pub fn advance(&mut self, dt_ms: u32) -> (fired: bool)
        requires
            timer_ok(*old(self)),
            dt_ms <= 100_000,
        ensures
            timer_ok(*final(self)),
            final(self).period_ms == old(self).period_ms,
            fired == (old(self).remaining_ms <= dt_ms),
            fired ==> final(self).remaining_ms == old(self).period_ms,
            !fired ==> final(self).remaining_ms == old(self).remaining_ms - dt_ms,
    {
        if self.remaining_ms <= dt_ms {
            self.remaining_ms = self.period_ms;
            true
        } else {
            self.remaining_ms = self.remaining_ms - dt_ms;
            false
        }
    }
}

/// Number of obstacles in the one-shot starting belt.
pub const BELT_COUNT: usize = 10;

/// Belt ring radius, in whole units.
pub const BELT_RADIUS: i64 = 10;

/// Belt drift speeds are drawn from `[0, 5)` units per second.
pub const BELT_SPEED_MAX: i64 = 5_000_000;

/// Emitter burst size.
pub const EMIT_COUNT: usize = 4;

/// Emitter drift speeds are drawn from `[1, 5)` units per second.
pub const EMIT_SPEED_MIN: i64 = 1_000_000;

/// See `EMIT_SPEED_MIN`.
pub const EMIT_SPEED_MAX: i64 = 5_000_000;

/// Fixed-point unit direction of the `i`-th belt slot: the angle
/// `i * 2*pi / 10` from the positive x axis, rounded to `SCALE` steps.
pub open spec fn belt_dir(i: int) -> Vec2 {
    if i == 0 { Vec2 { x: 1_000_000, y: 0 } }
    else if i == 1 { Vec2 { x: 809_017, y: 587_785 } }
    else if i == 2 { Vec2 { x: 309_017, y: 951_057 } }
    else if i == 3 { Vec2 { x: -309_017i64, y: 951_057 } }
    else if i == 4 { Vec2 { x: -809_017i64, y: 587_785 } }
    else if i == 5 { Vec2 { x: -1_000_000i64, y: 0 } }
    else if i == 6 { Vec2 { x: -809_017i64, y: -587_785i64 } }
    else if i == 7 { Vec2 { x: -309_017i64, y: -951_057i64 } }
    else if i == 8 { Vec2 { x: 309_017, y: -951_057i64 } }
    else { Vec2 { x: 809_017, y: -587_785i64 } }
}

/// Fixed-point cosine of the belt step angle (36 degrees).
pub const BELT_STEP_COS: i64 = 809_017;

/// Fixed-point sine of the belt step angle (36 degrees).
pub const BELT_STEP_SIN: i64 = 587_785;

/// Tolerance, at `SCALE * SCALE` resolution, of the belt rotation law.
pub const BELT_STEP_TOL: i64 = 4_000_000;

/// The belt slot after `i`, wrapping around the ring.
pub open spec fn belt_next(i: int) -> int {
    if i == 9 { 0 } else { i + 1 }
}

/// Each belt direction, rotated by the fixed step angle of `2*pi / 10`,
/// is the next belt direction up to rounding: the ring is evenly spaced.
pub open spec fn belt_step_ok(i: int) -> bool {
    let a = belt_dir(i);
    let b = belt_dir(belt_next(i));
    let ex = b.x * SCALE - (a.x * BELT_STEP_COS - a.y * BELT_STEP_SIN);
    let ey = b.y * SCALE - (a.x * BELT_STEP_SIN + a.y * BELT_STEP_COS);
    &&& -BELT_STEP_TOL <= ex <= BELT_STEP_TOL
    &&& -BELT_STEP_TOL <= ey <= BELT_STEP_TOL
    &&& a.x * b.y - a.y * b.x > 0
}

/// The ten belt directions are unit length (to rounding) and angularly
/// spaced by exactly one tenth of a turn, each obtained from its
/// predecessor by the same rotation, always counterclockwise.
pub proof fn lemma_belt_evenly_spaced()
    ensures
        forall|i: int| 0 <= i < 10 ==> unit_like(#[trigger] belt_dir(i)),
        forall|i: int| 0 <= i < 10 ==> #[trigger] belt_step_ok(i),
{
    assert(unit_like(belt_dir(0)) && belt_step_ok(0));
    assert(unit_like(belt_dir(1)) && belt_step_ok(1));
    assert(unit_like(belt_dir(2)) && belt_step_ok(2));
    assert(unit_like(belt_dir(3)) && belt_step_ok(3));
    assert(unit_like(belt_dir(4)) && belt_step_ok(4));
    assert(unit_like(belt_dir(5)) && belt_step_ok(5));
    assert(unit_like(belt_dir(6)) && belt_step_ok(6));
    assert(unit_like(belt_dir(7)) && belt_step_ok(7));
    assert(unit_like(belt_dir(8)) && belt_step_ok(8));
    assert(unit_like(belt_dir(9)) && belt_step_ok(9));
}

/// The `i`-th belt direction as a value.
pub fn belt_dir_at(i: usize) -> (d: Vec2)
    requires
        i < 10,
    ensures
        d == belt_dir(i as int),
        unit_like(d),
        within(d, SCALE as int),
    {
    proof {
        lemma_belt_evenly_spaced();
    }
    if i == 0 { Vec2 { x: 1_000_000, y: 0 } }
    else if i == 1 { Vec2 { x: 809_017, y: 587_785 } }
    else if i == 2 { Vec2 { x: 309_017, y: 951_057 } }
    else if i == 3 { Vec2 { x: -309_017, y: 951_057 } }
    else if i == 4 { Vec2 { x: -809_017, y: 587_785 } }
    else if i == 5 { Vec2 { x: -1_000_000, y: 0 } }
    else if i == 6 { Vec2 { x: -809_017, y: -587_785 } }
    else if i == 7 { Vec2 { x: -309_017, y: -951_057 } }
    else if i == 8 { Vec2 { x: 309_017, y: -951_057 } }
    else { Vec2 { x: 809_017, y: -587_785 } }
}

/// A pseudo-random unit-length direction: rejection-sample a point of the
/// square until it is at least half a unit from the origin, then rescale
/// it to unit length; falls back to the x axis if every draw was short.
pub fn random_unit_dir() -> (d: Vec2)
    ensures
        unit_like(d),
        within(d, SCALE as int),
{
    let mut tries: usize = 0;
    while tries < 32
        invariant
            tries <= 32,
        decreases 32 - tries,
    {
        let x = rand_i64(-SCALE, SCALE + 1);
        let y = rand_i64(-SCALE, SCALE + 1);
        let v = Vec2 { x, y };
        let nsq = crate::motion::norm_sq_exec(v);
        if nsq >= HALF_UNIT_SQ {
            let u = normalize(v);
            proof {
                assert(abs_i(u.x as int) <= SCALE && abs_i(u.y as int) <= SCALE);
            }
            return u;
        }
        tries = tries + 1;
    }
    Vec2 { x: SCALE, y: 0 }
}


} // verus!

//! The simulation session: the three-state lifecycle, the score, the
//! arena of bodies, the collision consequences and the per-tick update.

use vstd::prelude::*;
use crate::math::{Vec2, SCALE, COORD_LIMIT, norm_sq, within, tdiv, abs_i};
use crate::motion::{
    MAX_SPEED, damp1, clamp_x_of, clamp_y_of, thrust_dx, thrust_dy, jump_dx, jump_dy,
    gravity_comp, unit_like, JUMP_DELTA_LIMIT,
    gravity_force, damp_velocity, clamp_velocity, thrust_delta, jump_delta,
};
use crate::spawn::{
    SpawnTimer, timer_ok, belt_dir, belt_dir_at, BELT_RADIUS, BELT_SPEED_MAX,
    EMIT_SPEED_MIN, EMIT_SPEED_MAX, random_unit_dir,
};
use crate::rng::rand_i64;

verus! {

/// The lifecycle of the game.
#[derive(Clone, Copy, Debug, PartialEq, Eq, Structural, Hash)]
pub enum AppState {
    Menu,
    InGame,
    GameOver,
}

/// What a body is: the one steerable player, a destructible drifting
/// obstacle, or the singular fatal central hazard.
#[derive(Clone, Copy, Debug, PartialEq, Eq, Structural)]
pub enum BodyKind {
    Player,
    Obstacle,
    Hazard,
}

/// A rigid body of the arena, in fixed-point coordinates. The position is
/// integrated forward by the outside physics collaborator; the velocity is
/// owned by this core. Obstacles re-assert their constant `drift` as their
/// velocity every tick.
#[derive(Clone, Copy, Debug, PartialEq, Eq, Structural)]
pub struct Body {
    pub id: u64,
    pub kind: BodyKind,
    pub pos: Vec2,
    pub vel: Vec2,
    pub drift: Vec2,
    pub radius: i64,
    pub spin: i64,
}

/// The monotonic deflection counter, reset on every game start.
#[derive(Clone, Copy, Debug)]
pub struct Score {
    score: u32,
}

impl Score {
    /// The current count.
    pub closed spec fn spec_value(self) -> u32 {
        self.score
    }

    /// The current count.
    pub fn value(&self) -> (v: u32)
        ensures
            v == self.spec_value(),
    {
        self.score
    }

    /// Count one deflection.
    pub fn incr(&mut self)
        requires
            old(self).spec_value() < u32::MAX,
        ensures
            final(self).spec_value() == old(self).spec_value() + 1,
    {
        self.score = self.score + 1;
    }

    /// Back to zero, as on every game start.
    pub fn reset(&mut self)
        ensures
            final(self).spec_value() == 0,
    {
        self.score = 0;
    }
}

impl Default for Score {
    /// A zero score.
    fn default() -> (s: Score)
        ensures
            s.spec_value() == 0,
    {
        Score { score: 0 }
    }
}

/// A collision notification from the outside physics collaborator,
/// naming the two touching bodies; only `Started` events have effects.
#[derive(Clone, Copy, Debug, PartialEq, Eq, Structural)]
pub enum CollisionEvent {
    Started(u64, u64),
    Stopped(u64, u64),
}

/// Player body radius (2 units).
pub const PLAYER_RADIUS: i64 = 2_000_000;

/// Obstacle body radius (1 unit).
pub const OBSTACLE_RADIUS: i64 = 1_000_000;

/// Hazard body radius (4 units).
pub const HAZARD_RADIUS: i64 = 4_000_000;

/// Player spawn coordinate (10 units on each axis).
pub const PLAYER_SPAWN: i64 = 10_000_000;

/// Cosmetic angular speed the player spawns with (0.4 per second).
pub const PLAYER_SPIN: i64 = 400_000;

/// Player mass: a unit-density disc of the player radius, rounded.
pub const PLAYER_MASS: i64 = 13;

/// Zero vector.
pub open spec fn vec_zero() -> Vec2 {
    Vec2 { x: 0, y: 0 }
}

/// Coordinates of a body stay within the arena bounds.
pub open spec fn body_ok(b: Body) -> bool {
    &&& within(b.pos, COORD_LIMIT as int)
    &&& within(b.vel, COORD_LIMIT as int)
    &&& within(b.drift, COORD_LIMIT as int)
}

/// A well-formed obstacle of session `next_id` horizon: drifting at its
/// constant velocity, always below the speed cap.
pub open spec fn obstacle_ok(b: Body) -> bool {
    &&& b.kind == BodyKind::Obstacle
    &&& body_ok(b)
    &&& b.vel == b.drift
    &&& norm_sq(b.drift) <= MAX_SPEED * MAX_SPEED
}

/// The whole simulation state: lifecycle, score, spawn timer and arena.
pub struct Session {
    pub state: AppState,
    pub score: Score,
    pub timer: SpawnTimer,
    pub player: Body,
    pub hazard: Body,
    pub obstacles: Vec<Body>,
    pub next_id: u64,
}

impl Session {
    /// Session invariant: outside the menu, exactly one player and one
    /// immobile central hazard exist, all ids are distinct and below the
    /// allocation horizon, and every obstacle drifts below the speed cap.
    pub open spec fn wf(self) -> bool {
        &&& timer_ok(self.timer)
        &&& (self.state == AppState::Menu ==> self.obstacles@.len() == 0)
        &&& (self.state != AppState::Menu ==> {
            &&& self.player.kind == BodyKind::Player
            &&& body_ok(self.player)
            &&& self.hazard.kind == BodyKind::Hazard
            &&& self.hazard.pos == vec_zero()
            &&& self.hazard.vel == vec_zero()
            &&& self.hazard.drift == vec_zero()
            &&& self.player.id != self.hazard.id
            &&& self.player.id < self.next_id
            &&& self.hazard.id < self.next_id
        })
        &&& forall|j: int| 0 <= j < self.obstacles@.len()
            ==> obstacle_ok(#[trigger] self.obstacles@[j])
        &&& forall|j: int| 0 <= j < self.obstacles@.len()
            ==> (#[trigger] self.obstacles@[j]).id < self.next_id
        &&& forall|j: int| 0 <= j < self.obstacles@.len()
            ==> (#[trigger] self.obstacles@[j]).id != self.player.id
                && self.obstacles@[j].id != self.hazard.id
        &&& forall|j: int, k: int|
            #![trigger self.obstacles@[j], self.obstacles@[k]]
            0 <= j < k < self.obstacles@.len()
            ==> self.obstacles@[j].id != self.obstacles@[k].id
    }

    /// A fresh session sitting in the menu with nothing spawned.
    pub fn new() -> (s: Session)
        ensures
            s.wf(),
            s.state == AppState::Menu,
            s.score.spec_value() == 0,
            s.obstacles@.len() == 0,
    {
        Session {
            state: AppState::Menu,
            score: Score::default(),
            timer: SpawnTimer::new(),
            player: Body {
                id: 0, kind: BodyKind::Player,
                pos: Vec2 { x: 0, y: 0 }, vel: Vec2 { x: 0, y: 0 },
                drift: Vec2 { x: 0, y: 0 }, radius: PLAYER_RADIUS, spin: 0,
            },
            hazard: Body {
                id: 0, kind: BodyKind::Hazard,
                pos: Vec2 { x: 0, y: 0 }, vel: Vec2 { x: 0, y: 0 },
                drift: Vec2 { x: 0, y: 0 }, radius: HAZARD_RADIUS, spin: 0,
            },
            obstacles: Vec::new(),
            next_id: 1,
        }
    }
}

/// The belt obstacle of slot `i` spawned with id horizon `base`: placed
/// on the ring of radius `BELT_RADIUS` at the `i`-th evenly spaced
/// direction, drifting radially outward at some speed below
/// `BELT_SPEED_MAX`.
pub open spec fn belt_body_ok(b: Body, i: int, base: u64) -> bool {
    &&& b.id == base + 2 + i
    &&& b.kind == BodyKind::Obstacle
    &&& b.pos.x == belt_dir(i).x * BELT_RADIUS
    &&& b.pos.y == belt_dir(i).y * BELT_RADIUS
    &&& b.radius == OBSTACLE_RADIUS
    &&& b.vel == b.drift
    &&& exists|sp: int|
        0 <= sp < BELT_SPEED_MAX
            && b.vel.x == #[trigger] tdiv(belt_dir(i).x * sp, SCALE as int)
            && b.vel.y == tdiv(belt_dir(i).y * sp, SCALE as int)
}

/// An obstacle made by one emitter firing: on the unit ring around the
/// origin, drifting radially outward at a speed in
/// `[EMIT_SPEED_MIN, EMIT_SPEED_MAX)`.
pub open spec fn emitted_body_ok(b: Body) -> bool {
    &&& b.kind == BodyKind::Obstacle
    &&& unit_like(b.pos)
    &&& b.radius == OBSTACLE_RADIUS
    &&& b.vel == b.drift
    &&& exists|sp: int|
        EMIT_SPEED_MIN <= sp < EMIT_SPEED_MAX
            && b.vel.x == #[trigger] tdiv(b.pos.x * sp, SCALE as int)
            && b.vel.y == tdiv(b.pos.y * sp, SCALE as int)
}

impl Session {
    /// Spawn one obstacle drifting radially outward from direction `dir`
    /// at speed `sp`, at distance `ring` whole units from the origin.
    fn push_obstacle(&mut self, dir: Vec2, sp: i64, ring: i64)
        requires
            old(self).wf(),
            old(self).state != AppState::Menu,
            within(dir, SCALE as int),
            0 <= sp < 5_000_000,
            1 <= ring <= 10,
            old(self).next_id < u64::MAX,
        ensures
            final(self).wf(),
            final(self).obstacles@.len() == old(self).obstacles@.len() + 1,
            final(self).obstacles@.subrange(0, old(self).obstacles@.len() as int)
                =~= old(self).obstacles@,
            ({
                let b = final(self).obstacles@.last();
                &&& b.id == old(self).next_id
                &&& b.kind == BodyKind::Obstacle
                &&& b.pos.x == dir.x * ring
                &&& b.pos.y == dir.y * ring
                &&& b.radius == OBSTACLE_RADIUS
                &&& b.vel == b.drift
                &&& b.vel.x == tdiv(dir.x * sp, SCALE as int)
                &&& b.vel.y == tdiv(dir.y * sp, SCALE as int)
                &&& b.spin == 0
            }),
            final(self).next_id == old(self).next_id + 1,
            final(self).state == old(self).state,
            final(self).score == old(self).score,
            final(self).timer == old(self).timer,
            final(self).player == old(self).player,
            final(self).hazard == old(self).hazard,
    {
        let (vx, vy): (i64, i64) = if sp == 0 {
            proof {
                vstd::arithmetic::div_mod::lemma_div_of0(SCALE as int);
                assert(dir.x * 0 == 0 && dir.y * 0 == 0) by (nonlinear_arith);
            }
            (0i64, 0i64)
        } else {
            proof {
                assert(abs_i(dir.x as int) * sp <= i64::MAX) by (nonlinear_arith)
                    requires abs_i(dir.x as int) <= SCALE, 0 < sp < 5_000_000,
                        SCALE == 1_000_000;
                assert(abs_i(dir.y as int) * sp <= i64::MAX) by (nonlinear_arith)
                    requires abs_i(dir.y as int) <= SCALE, 0 < sp < 5_000_000,
                        SCALE == 1_000_000;
            }
            (crate::math::mul_div_trunc(dir.x, sp, SCALE),
             crate::math::mul_div_trunc(dir.y, sp, SCALE))
        };
        proof {
            assert(abs_i(dir.x as int) * sp <= 5_000_000_000_000i64) by (nonlinear_arith)
                requires abs_i(dir.x as int) <= SCALE, 0 <= sp < 5_000_000, SCALE == 1_000_000;
            assert(abs_i(dir.y as int) * sp <= 5_000_000_000_000i64) by (nonlinear_arith)
                requires abs_i(dir.y as int) <= SCALE, 0 <= sp < 5_000_000, SCALE == 1_000_000;
            assert(abs_i(vx as int) <= 5_000_000 && abs_i(vy as int) <= 5_000_000);
            assert(vx * vx + vy * vy <= MAX_SPEED * MAX_SPEED) by (nonlinear_arith)
                requires
                    abs_i(vx as int) <= 5_000_000, abs_i(vy as int) <= 5_000_000,
                    abs_i(vx as int) == vx || abs_i(vx as int) == -vx,
                    abs_i(vy as int) == vy || abs_i(vy as int) == -vy,
                    MAX_SPEED == 70_000_000;
        }
        proof {
            assert(abs_i(dir.x as int) * ring <= 10_000_000) by (nonlinear_arith)
                requires abs_i(dir.x as int) <= SCALE, 1 <= ring <= 10, SCALE == 1_000_000;
            assert(abs_i(dir.y as int) * ring <= 10_000_000) by (nonlinear_arith)
                requires abs_i(dir.y as int) <= SCALE, 1 <= ring <= 10, SCALE == 1_000_000;
            assert(-10_000_000 <= dir.x * ring <= 10_000_000
                && -10_000_000 <= dir.y * ring <= 10_000_000) by (nonlinear_arith)
                requires
                    abs_i(dir.x as int) * ring <= 10_000_000,
                    abs_i(dir.y as int) * ring <= 10_000_000,
                    1 <= ring,
                    abs_i(dir.x as int) == dir.x || abs_i(dir.x as int) == -dir.x,
                    abs_i(dir.y as int) == dir.y || abs_i(dir.y as int) == -dir.y;
        }
        let px = dir.x * ring;
        let py = dir.y * ring;
        let b = Body {
            id: self.next_id,
            kind: BodyKind::Obstacle,
            pos: Vec2 { x: px, y: py },
            vel: Vec2 { x: vx, y: vy },
            drift: Vec2 { x: vx, y: vy },
            radius: OBSTACLE_RADIUS,
            spin: 0,
        };
        self.obstacles.push(b);
        self.next_id = self.next_id + 1;
    }

    /// The external "primary action" (the play / revive interaction).
    /// Forbidden while a game is running: no such interaction surface
    /// exists then; such a call is a programming error, not an input.
    /// Resets the arena completely: score to zero, a fresh hazard at the
    /// origin, a fresh player at the fixed spawn offset with zero
    /// velocity and the cosmetic spin, and the ten-slot obstacle belt;
    /// everything older is despawned.
    pub fn primary_action(&mut self)
        requires
            old(self).wf(),
            old(self).state != AppState::InGame,
            old(self).next_id + 12 <= u64::MAX,
        ensures
            final(self).wf(),
            final(self).state == AppState::InGame,
            final(self).score.spec_value() == 0,
            final(self).hazard == (Body {
                id: old(self).next_id, kind: BodyKind::Hazard,
                pos: vec_zero(), vel: vec_zero(), drift: vec_zero(),
                radius: HAZARD_RADIUS, spin: 0,
            }),
            final(self).player == (Body {
                id: (old(self).next_id + 1) as u64, kind: BodyKind::Player,
                pos: Vec2 { x: PLAYER_SPAWN, y: PLAYER_SPAWN },
                vel: vec_zero(), drift: vec_zero(),
                radius: PLAYER_RADIUS, spin: PLAYER_SPIN,
            }),
            final(self).obstacles@.len() == 10,
            forall|i: int| 0 <= i < 10
                ==> belt_body_ok(#[trigger] final(self).obstacles@[i], i, old(self).next_id),
            final(self).timer == old(self).timer,
            final(self).next_id == old(self).next_id + 12,
    {
        let base = self.next_id;
        self.score.reset();
        self.obstacles = Vec::new();
        self.hazard = Body {
            id: base, kind: BodyKind::Hazard,
            pos: Vec2 { x: 0, y: 0 }, vel: Vec2 { x: 0, y: 0 },
            drift: Vec2 { x: 0, y: 0 }, radius: HAZARD_RADIUS, spin: 0,
        };
        self.player = Body {
            id: base + 1, kind: BodyKind::Player,
            pos: Vec2 { x: PLAYER_SPAWN, y: PLAYER_SPAWN },
            vel: Vec2 { x: 0, y: 0 }, drift: Vec2 { x: 0, y: 0 },
            radius: PLAYER_RADIUS, spin: PLAYER_SPIN,
        };
        self.state = AppState::InGame;
        self.next_id = base + 2;
        let mut i: usize = 0;
        while i < 10
            invariant
                self.wf(),
                self.state == AppState::InGame,
                self.score.spec_value() == 0,
                self.timer == old(self).timer,
                self.player == (Body {
                    id: (base + 1) as u64, kind: BodyKind::Player,
                    pos: Vec2 { x: PLAYER_SPAWN, y: PLAYER_SPAWN },
                    vel: vec_zero(), drift: vec_zero(),
                    radius: PLAYER_RADIUS, spin: PLAYER_SPIN,
                }),
                self.hazard == (Body {
                    id: base, kind: BodyKind::Hazard,
                    pos: vec_zero(), vel: vec_zero(), drift: vec_zero(),
                    radius: HAZARD_RADIUS, spin: 0,
                }),
                i <= 10,
                base + 12 <= u64::MAX,
                self.obstacles@.len() == i,
                self.next_id == base + 2 + i,
                forall|k: int| 0 <= k < i
                    ==> belt_body_ok(#[trigger] self.obstacles@[k], k, base),
            decreases 10 - i,
        {
            let dir = belt_dir_at(i);
            let sp = rand_i64(0, BELT_SPEED_MAX);
            let ghost prev = self.obstacles@;
            self.push_obstacle(dir, sp, BELT_RADIUS);
            proof {
                assert(self.obstacles@.subrange(0, prev.len() as int) =~= prev);
                assert forall|k: int| 0 <= k < i + 1
                    implies belt_body_ok(#[trigger] self.obstacles@[k], k, base) by {
                    if k < i {
                        assert(self.obstacles@[k] == prev[k]);
                    } else {
                        let b = self.obstacles@.last();
                        assert(0 <= sp < BELT_SPEED_MAX
                            && b.vel.x == tdiv(belt_dir(k).x * sp, SCALE as int)
                            && b.vel.y == tdiv(belt_dir(k).y * sp, SCALE as int));
                    }
                }
            }
            i = i + 1;
        }
    }
}

/// Does the event involve the player?
pub open spec fn involves(e: CollisionEvent, pid: u64) -> bool {
    match e {
        CollisionEvent::Started(a, b) => a == pid || b == pid,
        CollisionEvent::Stopped(_, _) => false,
    }
}

/// The participant of a started event that is not the player.
pub open spec fn event_other(e: CollisionEvent, pid: u64) -> u64 {
    match e {
        CollisionEvent::Started(a, b) => if a == pid { b } else { a },
        CollisionEvent::Stopped(_, _) => 0,
    }
}

/// A beneficial deflection: the player touched something that is neither
/// itself nor the hazard, so an obstacle.
pub open spec fn is_scoring(e: CollisionEvent, pid: u64, hid: u64) -> bool {
    involves(e, pid) && event_other(e, pid) != hid && event_other(e, pid) != pid
}

/// The fatal collision: the player touched the hazard.
pub open spec fn hits_hazard(e: CollisionEvent, pid: u64, hid: u64) -> bool {
    involves(e, pid) && event_other(e, pid) == hid
}

/// How many events of the stream score.
pub open spec fn scored_count(evs: Seq<CollisionEvent>, pid: u64, hid: u64) -> int
    decreases evs.len(),
{
    if evs.len() == 0 {
        0
    } else {
        scored_count(evs.drop_last(), pid, hid)
            + if is_scoring(evs.last(), pid, hid) { 1int } else { 0int }
    }
}

/// Whether any event of the stream is the fatal one.
pub open spec fn any_hazard_hit(evs: Seq<CollisionEvent>, pid: u64, hid: u64) -> bool {
    exists|k: int| 0 <= k < evs.len() && hits_hazard(#[trigger] evs[k], pid, hid)
}

/// Whether some scoring event names the obstacle with this id.
pub open spec fn names_obstacle(evs: Seq<CollisionEvent>, pid: u64, hid: u64, id: u64) -> bool {
    exists|k: int| 0 <= k < evs.len()
        && is_scoring(#[trigger] evs[k], pid, hid) && event_other(evs[k], pid) == id
}

/// An admissible event for session `s`: if it involves the player it
/// names two distinct bodies, and the other participant is the hazard or
/// a live obstacle. A stream breaking this (a despawn of a missing
/// entity) is an invariant violation, not an expected input.
pub open spec fn event_ok(e: CollisionEvent, s: Session) -> bool {
    involves(e, s.player.id) ==> {
        &&& match e {
            CollisionEvent::Started(a, b) => a != b,
            CollisionEvent::Stopped(_, _) => true,
        }
        &&& (event_other(e, s.player.id) == s.hazard.id
            || exists|j: int| 0 <= j < s.obstacles@.len()
                && (#[trigger] s.obstacles@[j]).id == event_other(e, s.player.id))
    }
}

/// The whole event stream is admissible and names each obstacle at most
/// once (the physics engine reports one started contact per pair).
pub open spec fn events_ok(evs: Seq<CollisionEvent>, s: Session) -> bool {
    &&& forall|k: int| 0 <= k < evs.len() ==> event_ok(#[trigger] evs[k], s)
    &&& forall|k1: int, k2: int|
        #![trigger evs[k1], evs[k2]]
        0 <= k1 < k2 < evs.len()
            && is_scoring(evs[k1], s.player.id, s.hazard.id)
            && is_scoring(evs[k2], s.player.id, s.hazard.id)
        ==> event_other(evs[k1], s.player.id) != event_other(evs[k2], s.player.id)
}

/// Pushing onto a sequence adds exactly one member.
proof fn lemma_push_contains(s: Seq<Body>, x: Body)
    ensures
        forall|y: Body| #[trigger] s.push(x).contains(y) <==> (s.contains(y) || y == x),
{
    assert forall|y: Body| #[trigger] s.push(x).contains(y) implies (s.contains(y) || y == x) by {
        let j = choose|j: int| 0 <= j < s.push(x).len() && s.push(x)[j] == y;
        if j < s.len() {
            assert(s[j] == y);
        }
    }
    assert forall|y: Body| (s.contains(y) || y == x) implies #[trigger] s.push(x).contains(y) by {
        if s.contains(y) {
            let j = choose|j: int| 0 <= j < s.len() && s[j] == y;
            assert(s.push(x)[j] == y);
        } else {
            assert(s.push(x)[s.len() as int] == y);
        }
    }
}

/// Does the event score, executably.
fn event_scores(e: CollisionEvent, pid: u64, hid: u64) -> (r: bool)
    ensures
        r == is_scoring(e, pid, hid),
{
    match e {
        CollisionEvent::Started(a, b) => {
            if a == pid || b == pid {
                let o = if a == pid { b } else { a };
                o != hid && o != pid
            } else {
                false
            }
        }
        CollisionEvent::Stopped(_, _) => false,
    }
}

/// Is the event the fatal one, executably.
fn event_hits_hazard(e: CollisionEvent, pid: u64, hid: u64) -> (r: bool)
    ensures
        r == hits_hazard(e, pid, hid),
{
    match e {
        CollisionEvent::Started(a, b) => {
            if a == pid || b == pid {
                let o = if a == pid { b } else { a };
                o == hid
            } else {
                false
            }
        }
        CollisionEvent::Stopped(_, _) => false,
    }
}

/// Does any scoring event of the stream name this obstacle id.
fn any_names(events: &Vec<CollisionEvent>, pid: u64, hid: u64, id: u64) -> (r: bool)
    ensures
        r == names_obstacle(events@, pid, hid, id),
{
    let mut k: usize = 0;
    while k < events.len()
        invariant
            k <= events@.len(),
            forall|kk: int| 0 <= kk < k
                ==> !(is_scoring(#[trigger] events@[kk], pid, hid)
                    && event_other(events@[kk], pid) == id),
        decreases events@.len() - k,
    {
        let e = events[k];
        if event_scores(e, pid, hid) {
            let o = match e {
                CollisionEvent::Started(a, b) => if a == pid { b } else { a },
                CollisionEvent::Stopped(_, _) => 0,
            };
            if o == id {
                return true;
            }
        }
        k = k + 1;
    }
    false
}

impl Session {
    /// Consume one tick's collision-start events (stop events have no
    /// effect). Every event not involving the player is ignored. Each
    /// deflected obstacle is despawned and scores one point, and each
    /// applies the same additive jump impulse to the player; a hazard
    /// contact sends the game to its over state. All effects of
    /// simultaneous events accumulate: neither a score nor the state
    /// change is lost.
    pub fn resolve_collisions(&mut self, events: &Vec<CollisionEvent>)
        requires
            old(self).wf(),
            old(self).state == AppState::InGame,
            events@.len() <= 64,
            old(self).score.spec_value() + 64 <= u32::MAX,
            norm_sq(old(self).player.vel) <= MAX_SPEED * MAX_SPEED + 6 * MAX_SPEED,
            events_ok(events@, *old(self)),
        ensures
            final(self).wf(),
            final(self).score.spec_value() == old(self).score.spec_value()
                + scored_count(events@, old(self).player.id, old(self).hazard.id),
            final(self).state == (if any_hazard_hit(
                events@, old(self).player.id, old(self).hazard.id) {
                AppState::GameOver
            } else {
                AppState::InGame
            }),
            final(self).player.vel.x == old(self).player.vel.x
                + scored_count(events@, old(self).player.id, old(self).hazard.id)
                    * jump_dx(old(self).player.pos),
            final(self).player.vel.y == old(self).player.vel.y
                + scored_count(events@, old(self).player.id, old(self).hazard.id)
                    * jump_dy(old(self).player.pos),
            final(self).player == (Body { vel: final(self).player.vel, ..old(self).player }),
            final(self).hazard == old(self).hazard,
            final(self).timer == old(self).timer,
            final(self).next_id == old(self).next_id,
            forall|b: Body| old(self).obstacles@.contains(b)
                ==> (final(self).obstacles@.contains(b)
                    <==> !names_obstacle(
                        events@, old(self).player.id, old(self).hazard.id, b.id)),
            forall|b: Body| final(self).obstacles@.contains(b)
                ==> old(self).obstacles@.contains(b),
    {
        let pid = self.player.id;
        let hid = self.hazard.id;
        // count deflections and look for the fatal contact
        let mut cnt: usize = 0;
        let mut hh = false;
        let mut k: usize = 0;
        while k < events.len()
            invariant
                k <= events@.len(),
                cnt <= k,
                cnt == scored_count(events@.subrange(0, k as int), pid, hid),
                hh == any_hazard_hit(events@.subrange(0, k as int), pid, hid),
            decreases events@.len() - k,
        {
            let ghost pre = events@.subrange(0, k as int);
            let e = events[k];
            if event_scores(e, pid, hid) {
                cnt = cnt + 1;
            }
            if event_hits_hazard(e, pid, hid) {
                hh = true;
            }
            k = k + 1;
            proof {
                let cur = events@.subrange(0, k as int);
                assert(cur.drop_last() =~= pre);
                assert(cur.last() == e);
                if !hits_hazard(e, pid, hid) {
                    assert(any_hazard_hit(cur, pid, hid) == any_hazard_hit(pre, pid, hid))
                        by {
                        if any_hazard_hit(cur, pid, hid) {
                            let w = choose|w: int| 0 <= w < cur.len()
                                && hits_hazard(cur[w], pid, hid);
                            assert(pre[w] == cur[w]);
                        }
                        if any_hazard_hit(pre, pid, hid) {
                            let w = choose|w: int| 0 <= w < pre.len()
                                && hits_hazard(pre[w], pid, hid);
                            assert(cur[w] == pre[w]);
                        }
                    }
                } else {
                    assert(cur[k - 1] == e);
                }
            }
        }
        proof {
            assert(events@.subrange(0, events@.len() as int) =~= events@);
        }
        // apply the accumulated score
        let ghost entry_score = self.score.spec_value();
        let mut t: usize = 0;
        while t < cnt
            invariant
                t <= cnt <= 64,
                entry_score + 64 <= u32::MAX,
                self.score.spec_value() == entry_score + t,
                self.state == old(self).state,
                self.player == old(self).player,
                self.hazard == old(self).hazard,
                self.timer == old(self).timer,
                self.next_id == old(self).next_id,
                self.obstacles == old(self).obstacles,
            decreases cnt - t,
        {
            self.score.incr();
            t = t + 1;
        }
        // the fatal contact freezes the game
        if hh {
            self.state = AppState::GameOver;
        }
        // the accumulated jump impulse
        let jd = jump_delta(self.player.pos);
        proof {
            assert(self.player.vel.x * self.player.vel.x <= norm_sq(self.player.vel))
                by (nonlinear_arith);
            assert(self.player.vel.y * self.player.vel.y <= norm_sq(self.player.vel))
                by (nonlinear_arith);
            assert(abs_i(self.player.vel.x as int) <= MAX_SPEED + 3) by (nonlinear_arith)
                requires
                    self.player.vel.x * self.player.vel.x
                        <= MAX_SPEED * MAX_SPEED + 6 * MAX_SPEED,
                    MAX_SPEED == 70_000_000,
                    abs_i(self.player.vel.x as int) == self.player.vel.x
                        || abs_i(self.player.vel.x as int) == -self.player.vel.x;
            assert(abs_i(self.player.vel.y as int) <= MAX_SPEED + 3) by (nonlinear_arith)
                requires
                    self.player.vel.y * self.player.vel.y
                        <= MAX_SPEED * MAX_SPEED + 6 * MAX_SPEED,
                    MAX_SPEED == 70_000_000,
                    abs_i(self.player.vel.y as int) == self.player.vel.y
                        || abs_i(self.player.vel.y as int) == -self.player.vel.y;
            assert(cnt * abs_i(jd.x as int) <= 64 * JUMP_DELTA_LIMIT) by (nonlinear_arith)
                requires cnt <= 64, abs_i(jd.x as int) <= JUMP_DELTA_LIMIT,
                    JUMP_DELTA_LIMIT == 4_700_000;
            assert(cnt * abs_i(jd.y as int) <= 64 * JUMP_DELTA_LIMIT) by (nonlinear_arith)
                requires cnt <= 64, abs_i(jd.y as int) <= JUMP_DELTA_LIMIT,
                    JUMP_DELTA_LIMIT == 4_700_000;
            assert((cnt as i64) * jd.x <= cnt * abs_i(jd.x as int)
                && -((cnt as i64) * jd.x) <= cnt * abs_i(jd.x as int)) by (nonlinear_arith)
                requires cnt >= 0, abs_i(jd.x as int) == jd.x || abs_i(jd.x as int) == -jd.x;
            assert((cnt as i64) * jd.y <= cnt * abs_i(jd.y as int)
                && -((cnt as i64) * jd.y) <= cnt * abs_i(jd.y as int)) by (nonlinear_arith)
                requires cnt >= 0, abs_i(jd.y as int) == jd.y || abs_i(jd.y as int) == -jd.y;
        }
        let addx: i64 = (cnt as i64) * jd.x;
        let addy: i64 = (cnt as i64) * jd.y;
        self.player = Body {
            vel: Vec2 { x: self.player.vel.x + addx, y: self.player.vel.y + addy },
            ..self.player
        };
        // despawn every deflected obstacle
        let ghost orig = self.obstacles@;
        let mut kept: Vec<Body> = Vec::new();
        let mut j: usize = 0;
        while j < self.obstacles.len()
            invariant
                j <= orig.len(),
                self.obstacles@ == orig,
                orig == old(self).obstacles@,
                old(self).wf(),
                pid == old(self).player.id,
                hid == old(self).hazard.id,
                forall|jj: int| 0 <= jj < j
                    && !names_obstacle(events@, pid, hid, (#[trigger] orig[jj]).id)
                    ==> kept@.contains(orig[jj]),
                forall|y: Body| #[trigger] kept@.contains(y)
                    ==> exists|jj: int| 0 <= jj < j && orig[jj] == y
                        && !names_obstacle(events@, pid, hid, y.id),
                forall|a: int, c: int|
                    #![trigger kept@[a], kept@[c]]
                    0 <= a < c < kept@.len() ==> kept@[a].id != kept@[c].id,
            decreases orig.len() - j,
        {
            let b = self.obstacles[j];
            let ghost kept_pre = kept@;
            if !any_names(events, pid, hid, b.id) {
                kept.push(b);
            }
            proof {
                lemma_push_contains(kept_pre, b);
                assert forall|y: Body| #[trigger] kept@.contains(y)
                    implies exists|jj: int| 0 <= jj < j + 1 && orig[jj] == y
                        && !names_obstacle(events@, pid, hid, y.id) by {
                    if kept_pre.contains(y) {
                        let w = choose|jj: int| 0 <= jj < j && orig[jj] == y
                            && !names_obstacle(events@, pid, hid, y.id);
                        assert(0 <= w < j + 1 && orig[w] == y);
                    } else {
                        assert(orig[j as int] == y);
                    }
                }
                assert forall|a: int, c: int|
                    #![trigger kept@[a], kept@[c]]
                    0 <= a < c < kept@.len() implies kept@[a].id != kept@[c].id by {
                    if c == kept@.len() - 1 && kept@.len() > kept_pre.len() {
                        assert(kept_pre.contains(kept@[a]));
                        let w = choose|jj: int| 0 <= jj < j && orig[jj] == kept@[a]
                            && !names_obstacle(events@, pid, hid, kept@[a].id);
                        assert(orig == old(self).obstacles@);
                        assert(old(self).obstacles@[w] == orig[w]);
                        assert(old(self).obstacles@[j as int] == orig[j as int]);
                        assert(orig[w].id != orig[j as int].id);
                    } else {
                        assert(kept@[a] == kept_pre[a] && kept@[c] == kept_pre[c]);
                    }
                }
            }
            j = j + 1;
        }
        self.obstacles = kept;
        proof {
            let fin = self.obstacles@;
            assert forall|b: Body| orig.contains(b)
                implies (fin.contains(b) <==> !names_obstacle(events@, pid, hid, b.id)) by {
                let w = choose|w: int| 0 <= w < orig.len() && orig[w] == b;
                if !names_obstacle(events@, pid, hid, b.id) {
                    assert(fin.contains(orig[w]));
                }
                if fin.contains(b) {
                    assert(!names_obstacle(events@, pid, hid, b.id));
                }
            }
            // well-formedness of the kept arena
            assert forall|a: int| 0 <= a < fin.len()
                implies obstacle_ok(#[trigger] fin[a]) && fin[a].id < self.next_id
                    && fin[a].id != self.player.id && fin[a].id != self.hazard.id by {
                assert(fin.contains(fin[a]));
                let w = choose|jj: int| 0 <= jj < orig.len() && orig[jj] == fin[a]
                    && !names_obstacle(events@, pid, hid, fin[a].id);
                assert(obstacle_ok(orig[w]));
            }
        }
    }
}

/// Some body of the sequence has this id and is a well-formed emitter
/// obstacle.
pub open spec fn emitted_with_id(s: Seq<Body>, id: u64) -> bool {
    exists|j: int| 0 <= j < s.len() && (#[trigger] s[j]).id == id && emitted_body_ok(s[j])
}

impl Session {
    /// One emitter firing: four obstacles on the unit ring around the
    /// origin at pseudo-random directions, each drifting radially outward
    /// at a random speed in `[1, 5)` units per second.
    fn spawn_burst(&mut self)
        requires
            old(self).wf(),
            old(self).state != AppState::Menu,
            old(self).next_id + 4 <= u64::MAX,
        ensures
            final(self).wf(),
            final(self).obstacles@.len() == old(self).obstacles@.len() + 4,
            final(self).obstacles@.subrange(0, old(self).obstacles@.len() as int)
                =~= old(self).obstacles@,
            forall|i: int| old(self).obstacles@.len() <= i < final(self).obstacles@.len()
                ==> emitted_body_ok(#[trigger] final(self).obstacles@[i])
                    && final(self).obstacles@[i].id
                        == old(self).next_id + i - old(self).obstacles@.len(),
            final(self).next_id == old(self).next_id + 4,
            final(self).state == old(self).state,
            final(self).score == old(self).score,
            final(self).timer == old(self).timer,
            final(self).player == old(self).player,
            final(self).hazard == old(self).hazard,
    {
        let ghost base_len = self.obstacles@.len();
        let mut i: usize = 0;
        while i < 4
            invariant
                i <= 4,
                self.wf(),
                self.state == old(self).state,
                self.state != AppState::Menu,
                self.score == old(self).score,
                self.timer == old(self).timer,
                self.player == old(self).player,
                self.hazard == old(self).hazard,
                old(self).next_id + 4 <= u64::MAX,
                base_len == old(self).obstacles@.len(),
                self.obstacles@.len() == base_len + i,
                self.next_id == old(self).next_id + i,
                self.obstacles@.subrange(0, base_len as int) =~= old(self).obstacles@,
                forall|k: int| base_len <= k < self.obstacles@.len()
                    ==> emitted_body_ok(#[trigger] self.obstacles@[k])
                        && self.obstacles@[k].id == old(self).next_id + k - base_len,
            decreases 4 - i,
        {
            let dir = random_unit_dir();
            let sp = rand_i64(EMIT_SPEED_MIN, EMIT_SPEED_MAX);
            let ghost prev = self.obstacles@;
            self.push_obstacle(dir, sp, 1);
            proof {
                assert(self.obstacles@.subrange(0, prev.len() as int) =~= prev);
                assert(self.obstacles@.subrange(0, base_len as int)
                    =~= prev.subrange(0, base_len as int));
                let b = self.obstacles@.last();
                assert(b.pos.x == dir.x * 1 && b.pos.y == dir.y * 1);
                assert(b.pos.x == dir.x && b.pos.y == dir.y);
                assert(b.pos == dir);
                assert(EMIT_SPEED_MIN <= sp < EMIT_SPEED_MAX
                    && b.vel.x == tdiv(b.pos.x * sp, SCALE as int)
                    && b.vel.y == tdiv(b.pos.y * sp, SCALE as int));
                assert(emitted_body_ok(b));
                assert forall|k: int| base_len <= k < self.obstacles@.len()
                    implies emitted_body_ok(#[trigger] self.obstacles@[k])
                        && self.obstacles@[k].id == old(self).next_id + k - base_len by {
                    if k < prev.len() {
                        assert(self.obstacles@[k] == prev[k]);
                    }
                }
            }
            i = i + 1;
        }
    }

    /// One simulation tick. While a game is running, the player's
    /// velocity goes through gravity, air drag, the optional steering
    /// thrust and the speed clamp, in that fixed order; the emitter may
    /// then fire; and finally this tick's collision events are resolved.
    /// After the player has lost, only the obstacles keep drifting and
    /// spawning, frozen but alive behind the game-over screen, and no
    /// state transition happens until the primary action. In the menu
    /// nothing runs.
    #[verifier::rlimit(100)]
    pub fn tick(&mut self, dt_ms: u32, input_held: bool, events: &Vec<CollisionEvent>)
        requires
            old(self).wf(),
            dt_ms <= 1000,
            events@.len() <= 64,
            old(self).score.spec_value() + 64 <= u32::MAX,
            old(self).next_id + 4 <= u64::MAX,
            old(self).state == AppState::InGame ==> events_ok(events@, *old(self)),
        ensures
            final(self).wf(),
            old(self).state == AppState::Menu ==> *final(self) == *old(self),
            old(self).state != AppState::Menu ==> {
                let fired = old(self).timer.remaining_ms <= dt_ms;
                &&& final(self).next_id == old(self).next_id + (if fired { 4int } else { 0int })
                &&& (fired ==> forall|i: int| 0 <= i < 4
                    ==> #[trigger] emitted_with_id(
                        final(self).obstacles@, (old(self).next_id + i) as u64))
            },
            old(self).state == AppState::GameOver ==> {
                &&& final(self).state == AppState::GameOver
                &&& final(self).score == old(self).score
                &&& final(self).player == old(self).player
                &&& final(self).hazard == old(self).hazard
                &&& final(self).obstacles@.subrange(0, old(self).obstacles@.len() as int)
                    =~= old(self).obstacles@
            },
            old(self).state == AppState::InGame ==> {
                let opid = old(self).player.id;
                let ohid = old(self).hazard.id;
                let p = old(self).player;
                &&& final(self).state == (if any_hazard_hit(events@, opid, ohid) {
                    AppState::GameOver
                } else {
                    AppState::InGame
                })
                &&& final(self).score.spec_value() == old(self).score.spec_value()
                    + scored_count(events@, opid, ohid)
                &&& final(self).hazard == old(self).hazard
                &&& final(self).player
                    == (Body { vel: final(self).player.vel, ..old(self).player })
                &&& ({
                    let gx = p.vel.x + tdiv(
                        gravity_comp(p.pos.x as int, PLAYER_MASS as int,
                            crate::motion::vnorm(p.pos)) * dt_ms,
                        1000 * (PLAYER_MASS as int));
                    let gy = p.vel.y + tdiv(
                        gravity_comp(p.pos.y as int, PLAYER_MASS as int,
                            crate::motion::vnorm(p.pos)) * dt_ms,
                        1000 * (PLAYER_MASS as int));
                    let tx = damp1(gx) + if input_held { thrust_dx(p.pos) } else { 0int };
                    let ty = damp1(gy) + if input_held { thrust_dy(p.pos) } else { 0int };
                    let sc = scored_count(events@, opid, ohid);
                    &&& final(self).player.vel.x
                        == clamp_x_of(tx, ty) + sc * jump_dx(p.pos)
                    &&& final(self).player.vel.y
                        == clamp_y_of(tx, ty) + sc * jump_dy(p.pos)
                })
                &&& forall|b: Body| old(self).obstacles@.contains(b)
                    ==> (final(self).obstacles@.contains(b)
                        <==> !names_obstacle(events@, opid, ohid, b.id))
            },
    {
        if matches!(self.state, AppState::Menu) {
            return;
        }
        let in_game = matches!(self.state, AppState::InGame);
        if in_game {
            // gravity, drag, steering and the clamp, on the player alone:
            // obstacles re-assert their constant drift, so the passes
            // would be overwritten on them anyway
            let p = self.player;
            let f = gravity_force(p.pos, PLAYER_MASS);
            let (dvx, dvy): (i64, i64) = if dt_ms == 0 {
                proof {
                    vstd::arithmetic::div_mod::lemma_div_of0(1000 * PLAYER_MASS as int);
                    assert(f.x * 0 == 0 && f.y * 0 == 0) by (nonlinear_arith);
                }
                (0i64, 0i64)
            } else {
                proof {
                    assert(abs_i(f.x as int) * (dt_ms as i64) <= i64::MAX) by (nonlinear_arith)
                        requires abs_i(f.x as int) <= 1_300_000_000i64, 0 < dt_ms <= 1000;
                    assert(abs_i(f.y as int) * (dt_ms as i64) <= i64::MAX) by (nonlinear_arith)
                        requires abs_i(f.y as int) <= 1_300_000_000i64, 0 < dt_ms <= 1000;
                }
                (crate::math::mul_div_trunc(f.x, dt_ms as i64, 1000 * PLAYER_MASS),
                 crate::math::mul_div_trunc(f.y, dt_ms as i64, 1000 * PLAYER_MASS))
            };
            proof {
                assert(abs_i(dvx as int) <= 100_000_000) by (nonlinear_arith)
                    requires
                        dvx == 0 || abs_i(dvx as int) * (13_000int)
                            <= abs_i(f.x as int) * (dt_ms as int),
                        abs_i(f.x as int) <= 1_300_000_000i64,
                        dt_ms <= 1000,
                        abs_i(dvx as int) >= 0;
                assert(abs_i(dvy as int) <= 100_000_000) by (nonlinear_arith)
                    requires
                        dvy == 0 || abs_i(dvy as int) * (13_000int)
                            <= abs_i(f.y as int) * (dt_ms as int),
                        abs_i(f.y as int) <= 1_300_000_000i64,
                        dt_ms <= 1000,
                        abs_i(dvy as int) >= 0;
            }
            let v1 = Vec2 { x: p.vel.x + dvx, y: p.vel.y + dvy };
            let v2 = damp_velocity(v1);
            let v3 = if input_held {
                let td = thrust_delta(p.pos);
                Vec2 { x: v2.x + td.x, y: v2.y + td.y }
            } else {
                v2
            };
            let v4 = clamp_velocity(v3);
            proof {
                assert(v4.x * v4.x <= norm_sq(v4)) by (nonlinear_arith);
                assert(v4.y * v4.y <= norm_sq(v4)) by (nonlinear_arith);
                assert(abs_i(v4.x as int) <= MAX_SPEED + 3 && abs_i(v4.y as int) <= MAX_SPEED + 3)
                    by (nonlinear_arith)
                    requires
                        v4.x * v4.x <= MAX_SPEED * MAX_SPEED + 6 * MAX_SPEED,
                        v4.y * v4.y <= MAX_SPEED * MAX_SPEED + 6 * MAX_SPEED,
                        MAX_SPEED == 70_000_000,
                        abs_i(v4.x as int) == v4.x || abs_i(v4.x as int) == -v4.x,
                        abs_i(v4.y as int) == v4.y || abs_i(v4.y as int) == -v4.y;
            }
            self.player = Body { vel: v4, ..p };
        }
        // the emitter runs while in game and behind the game-over screen
        let ghost pre_spawn = *self;
        let fired = self.timer.advance(dt_ms);
        if fired {
            self.spawn_burst();
        }
        if in_game {
            let ghost entry = *self;
            proof {
                assert forall|k: int| 0 <= k < events@.len()
                    implies event_ok(#[trigger] events@[k], *self) by {
                    assert(event_ok(events@[k], *old(self)));
                    if involves(events@[k], self.player.id)
                        && event_other(events@[k], self.player.id) != self.hazard.id {
                        let w = choose|j: int| 0 <= j < old(self).obstacles@.len()
                            && (#[trigger] old(self).obstacles@[j]).id
                                == event_other(events@[k], old(self).player.id);
                        assert(self.obstacles@.subrange(
                            0, old(self).obstacles@.len() as int)[w]
                            == old(self).obstacles@[w]);
                        assert(self.obstacles@[w].id
                            == event_other(events@[k], self.player.id));
                    }
                }
            }
            self.resolve_collisions(events);
            proof {
                let opid = old(self).player.id;
                let ohid = old(self).hazard.id;
                // deflected old obstacles are gone, the rest stay
                assert forall|b: Body| old(self).obstacles@.contains(b)
                    implies (self.obstacles@.contains(b)
                        <==> !names_obstacle(events@, opid, ohid, b.id)) by {
                    let w = choose|j: int| 0 <= j < old(self).obstacles@.len()
                        && old(self).obstacles@[j] == b;
                    assert(entry.obstacles@.subrange(
                        0, old(self).obstacles@.len() as int)[w]
                        == old(self).obstacles@[w]);
                    assert(entry.obstacles@[w] == b);
                    assert(entry.obstacles@.contains(b));
                }
                // this tick's spawn survives the resolution: every event
                // names a body that already existed before it
                if old(self).timer.remaining_ms <= dt_ms {
                    assert forall|i: int| 0 <= i < 4
                        implies #[trigger] emitted_with_id(
                            self.obstacles@, (old(self).next_id + i) as u64) by {
                        let id: u64 = (old(self).next_id + i) as u64;
                        let w = pre_spawn.obstacles@.len() + i;
                        assert((#[trigger] entry.obstacles@[w]).id == id
                            && emitted_body_ok(entry.obstacles@[w]));
                        let b = entry.obstacles@[w];
                        assert(entry.obstacles@.contains(b));
                        assert(!names_obstacle(events@, opid, ohid, b.id)) by {
                            if names_obstacle(events@, opid, ohid, b.id) {
                                let k = choose|k: int| 0 <= k < events@.len()
                                    && is_scoring(#[trigger] events@[k], opid, ohid)
                                    && event_other(events@[k], opid) == b.id;
                                assert(event_ok(events@[k], *old(self)));
                                let ww = choose|j: int|
                                    0 <= j < old(self).obstacles@.len()
                                    && (#[trigger] old(self).obstacles@[j]).id
                                        == event_other(events@[k], opid);
                                assert(old(self).obstacles@[ww].id < old(self).next_id);
                            }
                        }
                        assert(self.obstacles@.contains(b));
                        let v = choose|j: int| 0 <= j < self.obstacles@.len()
                            && self.obstacles@[j] == b;
                        assert((#[trigger] self.obstacles@[v]).id == id
                            && emitted_body_ok(self.obstacles@[v]));
                    }
                }
            }
        } else {
            proof {
                if old(self).timer.remaining_ms <= dt_ms {
                    assert forall|i: int| 0 <= i < 4
                        implies #[trigger] emitted_with_id(
                            self.obstacles@, (old(self).next_id + i) as u64) by {
                        let k = pre_spawn.obstacles@.len() + i;
                        assert((#[trigger] self.obstacles@[k]).id
                            == (old(self).next_id + i) as u64
                            && emitted_body_ok(self.obstacles@[k]));
                    }
                }
            }
        }
    }
}

} // verus!

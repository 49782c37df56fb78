use montociel::math::{isqrt, mul_div_trunc, Vec2, SCALE};
use montociel::motion::{
    clamp_velocity, damp_velocity, gravity_force, jump_delta, thrust_delta, MAX_SPEED,
};
use montociel::session::{AppState, BodyKind, CollisionEvent, Score, Session};
use montociel::spawn::{belt_dir_at, SpawnTimer, SPAWN_PERIOD_MS};

fn norm_sq(v: Vec2) -> i64 {
    v.x * v.x + v.y * v.y
}

fn fresh_game() -> Session {
    let mut s = Session::new();
    s.primary_action();
    s
}

#[test]
fn isqrt_exact_values() {
    assert_eq!(isqrt(0), 0);
    assert_eq!(isqrt(1), 1);
    assert_eq!(isqrt(24), 4);
    assert_eq!(isqrt(25), 5);
    assert_eq!(isqrt(10_000_000_000_000_000), 100_000_000);
}

#[test]
fn mul_div_truncates_toward_zero() {
    assert_eq!(mul_div_trunc(7, 95, 100), 6);
    assert_eq!(mul_div_trunc(-7, 95, 100), -6);
    assert_eq!(mul_div_trunc(100, 95, 100), 95);
}

#[test]
fn clamp_caps_fast_velocity_exactly() {
    // 100 units straight along x comes back as exactly 70 units
    let v = Vec2 { x: 100 * SCALE, y: 0 };
    let r = clamp_velocity(v);
    assert_eq!(r.x, MAX_SPEED);
    assert_eq!(r.y, 0);
}

#[test]
fn clamp_norm_bound_holds_for_all_sampled_bodies() {
    // after the clamp, |velocity| <= 70 + epsilon, whatever came in
    let samples = [
        Vec2 { x: 100 * SCALE, y: -250 * SCALE },
        Vec2 { x: -999 * SCALE, y: 999 * SCALE },
        Vec2 { x: 70 * SCALE, y: 1 },
        Vec2 { x: 3, y: -4 },
        Vec2 { x: 0, y: 0 },
    ];
    for v in samples {
        let r = clamp_velocity(v);
        assert!(norm_sq(r) <= MAX_SPEED * MAX_SPEED + 6 * MAX_SPEED);
    }
}

#[test]
fn clamp_leaves_slow_velocity_unchanged() {
    let v = Vec2 { x: 30 * SCALE, y: -20 * SCALE };
    let r = clamp_velocity(v);
    assert_eq!(r, v);
    let tiny = Vec2 { x: 5, y: -5 };
    assert_eq!(clamp_velocity(tiny), tiny);
}

#[test]
fn damping_is_exactly_95_hundredths() {
    let r = damp_velocity(Vec2 { x: 100, y: 7 });
    assert_eq!(r, Vec2 { x: 95, y: 6 });
    let r = damp_velocity(Vec2 { x: -100, y: -7 });
    assert_eq!(r, Vec2 { x: -95, y: -6 });
}

#[test]
fn damping_decays_geometrically_toward_zero() {
    let mut v = Vec2 { x: 40 * SCALE, y: -30 * SCALE };
    let v0 = v;
    let mut bound_x = v0.x as f64;
    let mut bound_y = -v0.y as f64;
    for _ in 0..200 {
        let next = damp_velocity(v);
        assert!(next.x.abs() <= v.x.abs());
        assert!(next.y.abs() <= v.y.abs());
        v = next;
        bound_x *= 0.95;
        bound_y *= 0.95;
        assert!((v.x as f64) <= bound_x + 1.0);
        assert!((-v.y as f64) <= bound_y + 1.0);
    }
    // long after, any residual velocity has decayed to exactly zero
    for _ in 0..2000 {
        v = damp_velocity(v);
    }
    assert_eq!(v, Vec2 { x: 0, y: 0 });
}

#[test]
fn gravity_points_toward_origin_and_is_finite_at_origin() {
    let f = gravity_force(Vec2 { x: 10 * SCALE, y: -10 * SCALE }, 13);
    assert!(f.x < 0 && f.y > 0);
    let f0 = gravity_force(Vec2 { x: 0, y: 0 }, 13);
    assert_eq!(f0, Vec2 { x: 0, y: 0 });
}

#[test]
fn gravity_strength_decays_with_distance() {
    // the inverse-distance coefficient |F|/|p| shrinks as |p| grows
    let p1 = Vec2 { x: 10 * SCALE, y: 0 };
    let p2 = Vec2 { x: 20 * SCALE, y: 0 };
    let f1 = gravity_force(p1, 13);
    let f2 = gravity_force(p2, 13);
    // cross-multiplied: |f1.x| / |p1.x| > |f2.x| / |p2.x|
    assert!((-f1.x) as i128 * p2.x as i128 > (-f2.x) as i128 * p1.x as i128);
}

#[test]
fn thrust_is_tangential() {
    let p = Vec2 { x: 10 * SCALE, y: 10 * SCALE };
    let d = thrust_delta(p);
    assert!(d.x > 0 && d.y < 0);
    // perpendicular to the radius vector, up to rounding
    let dot = d.x as i128 * p.x as i128 + d.y as i128 * p.y as i128;
    assert!(dot.abs() <= 2 * p.x as i128);
    // no impulse at the degenerate origin position
    assert_eq!(thrust_delta(Vec2 { x: 0, y: 0 }), Vec2 { x: 0, y: 0 });
}

#[test]
fn jump_is_bounded_and_zero_at_origin() {
    let d = jump_delta(Vec2 { x: 10 * SCALE, y: 10 * SCALE });
    assert!(norm_sq(d) > 0);
    assert!(d.x.abs() <= 4_700_000 && d.y.abs() <= 4_700_000);
    assert_eq!(jump_delta(Vec2 { x: 0, y: 0 }), Vec2 { x: 0, y: 0 });
}

#[test]
fn score_counts_and_resets() {
    let mut sc = Score::default();
    assert_eq!(sc.value(), 0);
    sc.incr();
    sc.incr();
    assert_eq!(sc.value(), 2);
    sc.reset();
    assert_eq!(sc.value(), 0);
}

#[test]
fn timer_fires_once_then_resets() {
    let mut t = SpawnTimer::new();
    assert!(!t.advance(1999));
    assert!(t.advance(1));
    assert_eq!(t.remaining_ms, SPAWN_PERIOD_MS);
    // a huge gap still fires only once, with no catch-up burst
    assert!(t.advance(100_000));
    assert_eq!(t.remaining_ms, SPAWN_PERIOD_MS);
}

#[test]
fn score_starts_at_zero_on_every_game_entry() {
    let mut s = fresh_game();
    assert_eq!(s.score.value(), 0);
    let obs = s.obstacles[0];
    let events = vec![CollisionEvent::Started(s.player.id, obs.id)];
    s.resolve_collisions(&events);
    assert_eq!(s.score.value(), 1);
    let events = vec![CollisionEvent::Started(s.hazard.id, s.player.id)];
    s.resolve_collisions(&events);
    assert_eq!(s.state, AppState::GameOver);
    s.primary_action();
    assert_eq!(s.score.value(), 0);
}

#[test]
fn belt_spawns_ten_obstacles_evenly_on_the_ring() {
    let s = fresh_game();
    assert_eq!(s.obstacles.len(), 10);
    for (i, b) in s.obstacles.iter().enumerate() {
        assert_eq!(b.kind, BodyKind::Obstacle);
        let d = belt_dir_at(i);
        assert_eq!(b.pos, Vec2 { x: d.x * 10, y: d.y * 10 });
        // on the radius-10 ring, up to direction rounding
        let r2 = norm_sq(b.pos);
        let target = 100 * SCALE * SCALE;
        assert!((r2 - target).abs() <= 600 * SCALE);
        // drift is radially outward: velocity is a nonnegative multiple
        // of the direction, so the cross product vanishes
        let cross = b.vel.x as i128 * d.y as i128 - b.vel.y as i128 * d.x as i128;
        assert!(cross.abs() <= 10 * SCALE as i128);
        assert_eq!(b.vel, b.drift);
        assert!(norm_sq(b.vel) < 5_100_000i64 * 5_100_000);
    }
}

#[test]
fn emitter_fires_four_obstacles_at_unit_radius() {
    let mut s = fresh_game();
    let none: Vec<CollisionEvent> = Vec::new();
    s.tick(1000, false, &none);
    assert_eq!(s.obstacles.len(), 10);
    s.tick(1000, false, &none);
    assert_eq!(s.obstacles.len(), 14);
    for b in &s.obstacles[10..] {
        assert_eq!(b.kind, BodyKind::Obstacle);
        let r2 = norm_sq(b.pos);
        assert!((r2 - SCALE * SCALE).abs() <= 6 * SCALE);
        // speed in [1, 5) units per second, up to rounding
        let v2 = norm_sq(b.vel);
        assert!(v2 >= 900_000 * 900_000);
        assert!(v2 < 5_100_000i64 * 5_100_000);
        assert_eq!(b.vel, b.drift);
    }
}

#[test]
fn obstacle_collision_scores_despawns_and_stays_in_game() {
    let mut s = fresh_game();
    let obs = s.obstacles[3];
    let vel_before = s.player.vel;
    let events = vec![CollisionEvent::Started(obs.id, s.player.id)];
    s.resolve_collisions(&events);
    assert_eq!(s.score.value(), 1);
    assert_eq!(s.obstacles.len(), 9);
    assert!(s.obstacles.iter().all(|b| b.id != obs.id));
    assert_eq!(s.state, AppState::InGame);
    // the jump impulse moved the player
    assert_ne!(s.player.vel, vel_before);
}

#[test]
fn hazard_collision_ends_the_game_and_nothing_else_transitions() {
    let mut s = fresh_game();
    let events = vec![CollisionEvent::Started(s.player.id, s.hazard.id)];
    s.resolve_collisions(&events);
    assert_eq!(s.state, AppState::GameOver);
    assert_eq!(s.obstacles.len(), 10);
    // ticks after the loss never leave the game-over state
    let none: Vec<CollisionEvent> = Vec::new();
    for _ in 0..5 {
        s.tick(16, true, &none);
        assert_eq!(s.state, AppState::GameOver);
    }
    s.primary_action();
    assert_eq!(s.state, AppState::InGame);
}

#[test]
fn simultaneous_obstacle_and_hazard_both_apply() {
    let mut s = fresh_game();
    let obs = s.obstacles[0];
    let events = vec![
        CollisionEvent::Started(s.player.id, obs.id),
        CollisionEvent::Started(s.player.id, s.hazard.id),
    ];
    s.resolve_collisions(&events);
    assert_eq!(s.score.value(), 1);
    assert_eq!(s.state, AppState::GameOver);
    assert!(s.obstacles.iter().all(|b| b.id != obs.id));
}

#[test]
fn stopped_events_and_foreign_collisions_are_ignored() {
    let mut s = fresh_game();
    let a = s.obstacles[0].id;
    let b = s.obstacles[1].id;
    let events = vec![
        CollisionEvent::Stopped(s.player.id, s.hazard.id),
        CollisionEvent::Started(a, b),
    ];
    s.resolve_collisions(&events);
    assert_eq!(s.score.value(), 0);
    assert_eq!(s.state, AppState::InGame);
    assert_eq!(s.obstacles.len(), 10);
}

#[test]
fn revive_fully_resets_the_arena() {
    let mut s = fresh_game();
    let none: Vec<CollisionEvent> = Vec::new();
    // let the emitter add extra obstacles, then lose
    s.tick(1000, false, &none);
    s.tick(1000, false, &none);
    assert_eq!(s.obstacles.len(), 14);
    let events = vec![CollisionEvent::Started(s.player.id, s.hazard.id)];
    s.resolve_collisions(&events);
    assert_eq!(s.state, AppState::GameOver);
    // obstacles keep spawning behind the game-over screen
    s.tick(1000, false, &none);
    s.tick(1000, false, &none);
    assert_eq!(s.obstacles.len(), 18);
    s.primary_action();
    assert_eq!(s.state, AppState::InGame);
    assert_eq!(s.score.value(), 0);
    assert_eq!(s.obstacles.len(), 10);
    assert_eq!(s.player.kind, BodyKind::Player);
    assert_eq!(s.player.pos, Vec2 { x: 10 * SCALE, y: 10 * SCALE });
    assert_eq!(s.player.vel, Vec2 { x: 0, y: 0 });
    assert_eq!(s.hazard.kind, BodyKind::Hazard);
    assert_eq!(s.hazard.pos, Vec2 { x: 0, y: 0 });
    for (i, b) in s.obstacles.iter().enumerate() {
        let d = belt_dir_at(i);
        assert_eq!(b.pos, Vec2 { x: d.x * 10, y: d.y * 10 });
    }
}

#[test]
fn menu_tick_does_nothing() {
    let mut s = Session::new();
    let none: Vec<CollisionEvent> = Vec::new();
    s.tick(1000, true, &none);
    s.tick(1000, true, &none);
    assert_eq!(s.state, AppState::Menu);
    assert_eq!(s.obstacles.len(), 0);
    assert_eq!(s.score.value(), 0);
}

#[test]
fn in_game_tick_applies_the_force_pipeline() {
    let mut s = fresh_game();
    let none: Vec<CollisionEvent> = Vec::new();
    s.tick(16, false, &none);
    // gravity pulled the resting player toward the origin
    assert!(s.player.vel.x < 0 && s.player.vel.y < 0);
    // and the clamp keeps it under the speed cap forever after
    for _ in 0..100 {
        s.tick(16, true, &none);
        assert!(norm_sq(s.player.vel) <= MAX_SPEED * MAX_SPEED + 6 * MAX_SPEED);
    }
}

use rust_invaders::components::{Movable, Point, Velocity};
use rust_invaders::enemy::{advance, fire_point, isqrt, next_angle, spawn_allowed, turn_dir};
use rust_invaders::explosion::ExplosionTimer;
use rust_invaders::formation::{draw, Formation, FormationDraws, FormationMaker, TURN_MICRO};
use rust_invaders::geometry::{collide, pin, WinSize};
use rust_invaders::movable::move_body;
use rust_invaders::player::{fire_points, keyboard_velocity, spawn_point, PlayerState, NEVER_SHOT_MS};
use rust_invaders::units::{
    BASE_SPEED, COORD_LIMIT, MOVE_LIMIT, ENEMY_HIT_H, ENEMY_HIT_W, ENEMY_MAX, PLAYER_LASER_HIT_H, PLAYER_LASER_HIT_W, STEP, UNIT,
};
use rust_invaders::world::{is_spawn_tick, Body, Kind, TickInput, World};

fn win() -> WinSize {
    WinSize { w: 598 * UNIT, h: 676 * UNIT }
}

fn count(w: &World, k: Kind) -> usize {
    w.bodies.iter().filter(|b| b.kind == k).count()
}

fn player_laser(id: u64, x: i64, y: i64) -> Body {
    Body {
        id,
        kind: Kind::PlayerLaser,
        pos: Point { x, y },
        z: 0,
        velocity: Velocity { x: 0, y: 1 },
        movable: Some(Movable { auto_despawn: true }),
        formation: None,
        timer: None,
    }
}

fn enemy_laser(id: u64, x: i64, y: i64) -> Body {
    Body {
        id,
        kind: Kind::EnemyLaser,
        pos: Point { x, y },
        z: 0,
        velocity: Velocity { x: 0, y: -1 },
        movable: Some(Movable { auto_despawn: true }),
        formation: None,
        timer: None,
    }
}

fn formation_from_left() -> Formation {
    Formation {
        start: Point { x: -(299 + 100) * UNIT, y: 0 },
        radius: Point { x: 100 * UNIT, y: 100 * UNIT },
        pivot: Point { x: 0, y: 0 },
        speed: BASE_SPEED,
        angle: 0,
    }
}

fn enemy(id: u64, x: i64, y: i64) -> Body {
    Body {
        id,
        kind: Kind::Enemy,
        pos: Point { x, y },
        z: 10 * UNIT,
        velocity: Velocity { x: 0, y: 0 },
        movable: None,
        formation: Some(formation_from_left()),
        timer: None,
    }
}

fn draws(from_right: bool, start_y: i64) -> FormationDraws {
    FormationDraws { from_right, start_y, pivot_x: 10 * UNIT, pivot_y: 20 * UNIT, radius_x: 90 * UNIT }
}

fn quiet_input() -> TickInput {
    TickInput {
        left: false,
        right: false,
        fire_pressed: false,
        spawn_due: false,
        draws: draws(false, 0),
        angle: 0,
        gate_open: false,
    }
}

#[test]
fn new_world_has_player_at_spawn_point() {
    let w = World::new(win());
    assert_eq!(w.bodies.len(), 1);
    assert_eq!(w.bodies[0].kind, Kind::Player);
    assert_eq!(w.bodies[0].pos, Point { x: 0, y: -338 * UNIT + 75 + 50 * UNIT });
    assert_eq!(w.bodies[0].velocity, Velocity { x: 1, y: 0 });
    assert!(w.player.alive);
    assert_eq!(w.enemy_count, 0);
}

#[test]
fn scenario_player_fire() {
    let mut w = World::new(win());
    let p = w.bodies[0].pos;
    let mut input = quiet_input();
    input.fire_pressed = true;
    w.tick_begin(&input);
    assert_eq!(w.bodies.len(), 3);
    let lasers: Vec<&Body> = w.bodies.iter().filter(|b| b.kind == Kind::PlayerLaser).collect();
    assert_eq!(lasers.len(), 2);
    for l in &lasers {
        assert_eq!(l.velocity, Velocity { x: 0, y: 1 });
        assert_eq!(l.movable, Some(Movable { auto_despawn: true }));
        assert_eq!(l.pos.y, p.y + 3 * UNIT / 4 + 75 * UNIT);
    }
    assert_eq!(lasers[0].pos.x, p.x + 10 * UNIT);
    assert_eq!(lasers[1].pos.x, p.x - 10 * UNIT);
}

#[test]
fn fire_key_not_pressed_spawns_nothing() {
    let mut w = World::new(win());
    w.player_fire(false);
    assert_eq!(w.bodies.len(), 1);
}

#[test]
fn dead_player_does_not_fire() {
    let mut w = World::new(win());
    w.bodies.clear();
    w.player.shot(5);
    w.player_fire(true);
    assert!(w.bodies.is_empty());
}

#[test]
fn fire_points_exact_offsets() {
    let (r, l) = fire_points(Point { x: 100, y: -200 });
    assert_eq!(r, Point { x: 100 + 3840, y: -200 + 29088 });
    assert_eq!(l, Point { x: 100 - 3840, y: -200 + 29088 });
}

#[test]
fn keyboard_directions() {
    assert_eq!(keyboard_velocity(true, false), Velocity { x: -1, y: 0 });
    assert_eq!(keyboard_velocity(false, true), Velocity { x: 1, y: 0 });
    assert_eq!(keyboard_velocity(false, false), Velocity { x: 0, y: 0 });
    assert_eq!(keyboard_velocity(true, true), Velocity { x: -1, y: 0 });
}

#[test]
fn keyboard_touches_only_player() {
    let mut w = World::new(win());
    w.bodies.push(player_laser(9, 0, 0));
    w.player_keyboard(true, false);
    assert_eq!(w.bodies[0].velocity, Velocity { x: -1, y: 0 });
    assert_eq!(w.bodies[1].velocity, Velocity { x: 0, y: 1 });
}

#[test]
fn scenario_off_screen_despawn() {
    let mut w = World::new(win());
    let h2 = w.win.h / 2;
    w.bodies.push(player_laser(7, 0, h2 + 199 * UNIT));
    w.bodies.push(player_laser(8, 0, h2 + 190 * UNIT));
    w.movable_system();
    assert!(w.bodies.iter().all(|b| b.id != 7));
    let kept: Vec<&Body> = w.bodies.iter().filter(|b| b.id == 8).collect();
    assert_eq!(kept.len(), 1);
    assert_eq!(kept[0].pos, Point { x: 0, y: h2 + 190 * UNIT + 3200 });
}

#[test]
fn laser_just_past_margin_is_removed() {
    let (p, gone) = move_body(
        &win(),
        &Velocity { x: 0, y: 1 },
        &Movable { auto_despawn: true },
        Point { x: 0, y: 338 * UNIT + 199 * UNIT },
    );
    assert_eq!(p, Point { x: 0, y: 338 * UNIT + 199 * UNIT + STEP });
    assert!(gone);
}

#[test]
fn player_never_auto_despawns() {
    let (p, gone) = move_body(
        &win(),
        &Velocity { x: -1, y: 0 },
        &Movable { auto_despawn: false },
        Point { x: -10_000 * UNIT, y: 0 },
    );
    assert_eq!(p.x, -10_000 * UNIT - 3200);
    assert!(!gone);
}

#[test]
fn movement_saturates_at_coordinate_limit() {
    let (p, _) = move_body(&win(), &Velocity { x: 1, y: 0 }, &Movable { auto_despawn: false }, Point { x: COORD_LIMIT, y: 0 });
    assert_eq!(p.x, MOVE_LIMIT);
    assert_eq!(pin(-COORD_LIMIT - 5, 3), Point { x: -COORD_LIMIT, y: 3 });
}

#[test]
fn still_bodies_stay_put() {
    let mut w = World::new(win());
    w.bodies[0].velocity = Velocity { x: 0, y: 0 };
    let before = w.bodies[0].pos;
    w.movable_system();
    assert_eq!(w.bodies[0].pos, before);
}

#[test]
fn scenario_hit() {
    let mut w = World::new(win());
    w.bodies.push(player_laser(5, 50 * UNIT, 100 * UNIT));
    w.bodies.push(enemy(6, 50 * UNIT, 100 * UNIT));
    w.enemy_count = 1;
    w.player_laser_hit_enemy();
    assert_eq!(w.enemy_count, 0);
    assert_eq!(count(&w, Kind::Enemy), 0);
    assert_eq!(count(&w, Kind::PlayerLaser), 0);
    let markers: Vec<&Body> = w.bodies.iter().filter(|b| b.kind == Kind::ExplosionToSpawn).collect();
    assert_eq!(markers.len(), 1);
    assert_eq!(markers[0].pos, Point { x: 50 * UNIT, y: 100 * UNIT });
    w.explosion_to_spawn();
    assert_eq!(count(&w, Kind::ExplosionToSpawn), 0);
    let booms: Vec<&Body> = w.bodies.iter().filter(|b| b.kind == Kind::Explosion).collect();
    assert_eq!(booms.len(), 1);
    assert_eq!(booms[0].pos, Point { x: 50 * UNIT, y: 100 * UNIT });
    assert_eq!(booms[0].timer, Some(ExplosionTimer { elapsed_ms: 0, frame: 0 }));
}

#[test]
fn one_laser_destroys_one_enemy() {
    let mut w = World::new(win());
    w.bodies.push(player_laser(5, 0, 0));
    w.bodies.push(enemy(6, 0, 0));
    w.bodies.push(enemy(7, 0, 10));
    w.enemy_count = 2;
    w.player_laser_hit_enemy();
    assert_eq!(w.enemy_count, 1);
    assert_eq!(count(&w, Kind::Enemy), 1);
    assert_eq!(count(&w, Kind::ExplosionToSpawn), 1);
}

#[test]
fn enemy_lasers_and_explosions_survive_player_hits() {
    let mut w = World::new(win());
    w.bodies.push(player_laser(5, 0, 0));
    w.bodies.push(enemy(6, 0, 0));
    w.bodies.push(enemy_laser(7, 0, 0));
    w.enemy_count = 1;
    w.player_laser_hit_enemy();
    assert_eq!(count(&w, Kind::EnemyLaser), 1);
    assert_eq!(count(&w, Kind::Player), 1);
    assert_eq!(count(&w, Kind::Enemy), 0);
}

#[test]
fn scenario_no_collision_when_enemy_above() {
    let mut w = World::new(win());
    w.bodies.push(player_laser(5, 50 * UNIT, 100 * UNIT));
    w.bodies.push(enemy(6, 50 * UNIT, 200 * UNIT));
    w.enemy_count = 1;
    let before = w.bodies.clone();
    w.player_laser_hit_enemy();
    assert_eq!(w.bodies, before);
    assert_eq!(w.enemy_count, 1);
}

#[test]
fn first_hitting_enemy_laser_is_removed() {
    let mut w = World::new(win());
    let p = w.bodies[0].pos;
    w.bodies.push(enemy_laser(3, p.x + 500 * UNIT, p.y));
    w.bodies.push(enemy_laser(4, p.x, p.y));
    w.bodies.push(enemy_laser(5, p.x, p.y));
    w.enemy_laser_hit_player(1_000);
    let ids: Vec<u64> = w.bodies.iter().filter(|b| b.kind == Kind::EnemyLaser).map(|b| b.id).collect();
    assert_eq!(ids, vec![3, 5]);
}

#[test]
fn explosions_advance_in_world() {
    let mut w = World::new(win());
    w.bodies.push(player_laser(5, 0, 0));
    w.bodies.push(enemy(6, 0, 0));
    w.enemy_count = 1;
    w.player_laser_hit_enemy();
    w.explosion_to_spawn();
    w.explosion_animation(160);
    let booms: Vec<&Body> = w.bodies.iter().filter(|b| b.kind == Kind::Explosion).collect();
    assert_eq!(booms[0].timer, Some(ExplosionTimer { elapsed_ms: 10, frame: 3 }));
}

#[test]
fn missed_laser_keeps_everything() {
    let mut w = World::new(win());
    w.bodies.push(player_laser(5, 0, 0));
    w.bodies.push(enemy(6, 200 * UNIT, 0));
    w.enemy_count = 1;
    w.player_laser_hit_enemy();
    assert_eq!(w.enemy_count, 1);
    assert_eq!(w.bodies.len(), 3);
}

#[test]
fn collide_boxes() {
    let a = Point { x: 50 * UNIT, y: 100 * UNIT };
    assert!(collide(a, PLAYER_LASER_HIT_W, PLAYER_LASER_HIT_H, a, ENEMY_HIT_W, ENEMY_HIT_H));
    let edge = Point { x: 50 * UNIT + (PLAYER_LASER_HIT_W + ENEMY_HIT_W) / 2, y: 100 * UNIT };
    assert!(!collide(a, PLAYER_LASER_HIT_W, PLAYER_LASER_HIT_H, edge, ENEMY_HIT_W, ENEMY_HIT_H));
    let inside = Point { x: edge.x - 1, y: 100 * UNIT };
    assert!(collide(a, PLAYER_LASER_HIT_W, PLAYER_LASER_HIT_H, inside, ENEMY_HIT_W, ENEMY_HIT_H));
    assert_eq!(ENEMY_HIT_W, 14400);
    assert_eq!(ENEMY_HIT_H, 7500);
}

#[test]
fn enemy_laser_kills_player() {
    let mut w = World::new(win());
    let p = w.bodies[0].pos;
    w.bodies.push(enemy_laser(3, p.x, p.y));
    w.bodies.push(enemy_laser(4, p.x, p.y));
    w.enemy_laser_hit_player(10_000);
    assert!(!w.player.alive);
    assert_eq!(w.player.last_shot_ms, 10_000);
    assert_eq!(count(&w, Kind::Player), 0);
    assert_eq!(count(&w, Kind::EnemyLaser), 1);
    let markers: Vec<&Body> = w.bodies.iter().filter(|b| b.kind == Kind::ExplosionToSpawn).collect();
    assert_eq!(markers.len(), 1);
    assert_eq!(markers[0].pos, p);
}

#[test]
fn enemy_laser_far_away_misses() {
    let mut w = World::new(win());
    w.bodies.push(enemy_laser(3, 0, 300 * UNIT));
    w.enemy_laser_hit_player(10_000);
    assert!(w.player.alive);
    assert_eq!(w.bodies.len(), 2);
}

#[test]
fn scenario_respawn() {
    let mut w = World::new(win());
    let spawn = w.bodies[0].pos;
    w.bodies.push(enemy_laser(3, spawn.x, spawn.y));
    w.enemy_laser_hit_player(10_000);
    assert!(!w.player.alive);
    w.player_respawn(11_900);
    assert_eq!(count(&w, Kind::Player), 0);
    assert!(!w.player.alive);
    w.player_respawn(12_000);
    assert_eq!(count(&w, Kind::Player), 1);
    assert!(w.player.alive);
    assert_eq!(w.player.last_shot_ms, NEVER_SHOT_MS);
    let p: Vec<&Body> = w.bodies.iter().filter(|b| b.kind == Kind::Player).collect();
    assert_eq!(p[0].pos, spawn_point(&win()));
}

#[test]
fn respawn_delay_rule() {
    let mut s = PlayerState::new();
    s.shot(10_000);
    assert!(!s.respawn_due(11_999));
    assert!(s.respawn_due(12_000));
    s.spawned();
    assert!(!s.respawn_due(50_000));
}

#[test]
fn scenario_formation_sharing() {
    let mut m = FormationMaker::new();
    assert!(m.needs_template());
    let f1 = m.make(&win(), &draws(false, 5 * UNIT), 123);
    let f2 = m.make(&win(), &draws(true, -7 * UNIT), 456);
    assert_eq!(f1, f2);
    assert_eq!(f1.start, Point { x: -(299 + 100) * UNIT, y: 5 * UNIT });
    assert_eq!(f1.pivot, Point { x: 10 * UNIT, y: 20 * UNIT });
    assert_eq!(f1.radius, Point { x: 90 * UNIT, y: 100 * UNIT });
    assert_eq!(f1.speed, BASE_SPEED);
    assert_eq!(f1.angle, 123);
    assert!(m.needs_template());
    let f3 = m.make(&win(), &draws(true, -7 * UNIT), 456);
    assert_ne!(f3, f1);
    assert_eq!(f3.start, Point { x: (299 + 100) * UNIT, y: -7 * UNIT });
    assert_eq!(f3.angle, 456);
    assert_eq!(m.current_members, 1);
}

#[test]
fn drawn_values_stay_in_range() {
    let w = win();
    let mut rights = 0;
    let mut heights = Vec::new();
    for _ in 0..200 {
        let d = draw(&w);
        heights.push(d.start_y);
        assert!(-(w.h / 2 + 100 * UNIT) <= d.start_y && d.start_y < w.h / 2 + 100 * UNIT);
        assert!(-(w.w / 4) <= d.pivot_x && d.pivot_x < w.w / 4);
        assert!(0 <= d.pivot_y && d.pivot_y < w.h / 3 - 50 * UNIT);
        assert!(80 * UNIT <= d.radius_x && d.radius_x < 150 * UNIT);
        if d.from_right {
            rights += 1;
        }
    }
    assert!(rights > 0 && rights < 200);
    assert!(heights.iter().any(|&y| y != heights[0]));
    assert!(heights.iter().any(|&y| y != -(w.h / 2 + 100 * UNIT)));
}

#[test]
fn turn_direction_by_entry_side() {
    let left = formation_from_left();
    assert_eq!(turn_dir(&left), 1);
    let right = Formation { start: Point { x: (299 + 100) * UNIT, y: 0 }, ..left };
    assert_eq!(turn_dir(&right), -1);
}

#[test]
fn next_angle_values() {
    let left = formation_from_left();
    assert_eq!(next_angle(&left), 53051);
    let right = Formation { start: Point { x: (299 + 100) * UNIT, y: 0 }, ..left };
    assert_eq!(next_angle(&right), TURN_MICRO - 53051);
}

#[test]
fn integer_square_root() {
    assert_eq!(isqrt(0), 0);
    assert_eq!(isqrt(1), 1);
    assert_eq!(isqrt(15), 3);
    assert_eq!(isqrt(16), 4);
    assert_eq!(isqrt(2_500_000_000), 50_000);
    assert_eq!(isqrt(u64::MAX), 4_294_967_295);
}

#[test]
fn enemy_step_towards_near_target_locks() {
    let f = formation_from_left();
    let (p, nf) = advance(Point { x: 0, y: 0 }, &f, Point { x: 30_000, y: 40_000 });
    assert_eq!(p, Point { x: 1920, y: 2560 });
    assert_eq!(nf.angle, 53051);
    assert_eq!(nf.start, f.start);
}

#[test]
fn enemy_step_towards_far_target_keeps_angle() {
    let f = formation_from_left();
    let (p, nf) = advance(Point { x: 0, y: 0 }, &f, Point { x: 300_000, y: -400_000 });
    assert_eq!(p, Point { x: 1920, y: -2560 });
    assert_eq!(nf, f);
}

#[test]
fn enemy_on_target_locks_at_low_speed() {
    let f = Formation { speed: 1, ..formation_from_left() };
    let (p, nf) = advance(Point { x: 7, y: 9 }, &f, Point { x: 7, y: 9 });
    assert_eq!(p, Point { x: 7, y: 9 });
    assert_eq!(nf.angle, next_angle(&f));
    assert_ne!(nf.angle, f.angle);
}

#[test]
fn lock_threshold_boundary() {
    let f = formation_from_left();
    let (_, near) = advance(Point { x: 0, y: 0 }, &f, Point { x: 79_999, y: 0 });
    assert_eq!(near.angle, 53051);
    let (_, far) = advance(Point { x: 0, y: 0 }, &f, Point { x: 80_000, y: 0 });
    assert_eq!(far.angle, 0);
}

#[test]
fn enemy_step_does_not_overshoot() {
    let f = formation_from_left();
    let (p, _) = advance(Point { x: 0, y: 0 }, &f, Point { x: 1000, y: 0 });
    assert_eq!(p, Point { x: 1000, y: 0 });
    let (q, _) = advance(Point { x: 5, y: 5 }, &f, Point { x: 5, y: 5 });
    assert_eq!(q, Point { x: 5, y: 5 });
}

#[test]
fn enemy_movement_in_world() {
    let mut w = World::new(win());
    w.bodies.push(enemy(6, 0, 0));
    w.enemy_count = 1;
    let aims = w.aim_angles();
    assert_eq!(aims, vec![0, 53051]);
    let player_pos = w.bodies[0].pos;
    w.enemy_movement(&vec![Point { x: 0, y: 0 }, Point { x: 300_000, y: 400_000 }]);
    assert_eq!(w.bodies[0].pos, player_pos);
    assert_eq!(w.bodies[1].pos, Point { x: 1920, y: 2560 });
}

#[test]
fn enemy_spawn_respects_maximum() {
    let mut w = World::new(win());
    for i in 0..3 {
        w.enemy_spawn(&draws(i % 2 == 0, 0), 0);
    }
    assert_eq!(w.enemy_count, ENEMY_MAX);
    assert_eq!(count(&w, Kind::Enemy), 2);
    let es: Vec<&Body> = w.bodies.iter().filter(|b| b.kind == Kind::Enemy).collect();
    assert_eq!(es[0].formation, es[1].formation);
    assert_eq!(es[0].pos, es[0].formation.unwrap().start);
    assert!(spawn_allowed(1));
    assert!(!spawn_allowed(2));
}

#[test]
fn enemy_fire_gate() {
    let mut w = World::new(win());
    w.bodies.push(enemy(6, 10, 20 * UNIT));
    w.bodies.push(enemy(7, -10, 30 * UNIT));
    w.enemy_count = 2;
    w.enemy_fire(false);
    assert_eq!(w.bodies.len(), 3);
    w.enemy_fire(true);
    let lasers: Vec<&Body> = w.bodies.iter().filter(|b| b.kind == Kind::EnemyLaser).collect();
    assert_eq!(lasers.len(), 2);
    assert_eq!(lasers[0].pos, Point { x: 10, y: 5 * UNIT });
    assert_eq!(lasers[1].pos, Point { x: -10, y: 15 * UNIT });
    assert_eq!(lasers[0].velocity, Velocity { x: 0, y: -1 });
    assert_eq!(fire_point(Point { x: 1, y: 2 }), Point { x: 1, y: 2 - 15 * UNIT });
}

#[test]
fn scenario_explosion_lifetime() {
    let mut t = ExplosionTimer::new();
    let mut total = 0;
    while !t.finished() {
        t.tick(16);
        total += 16;
    }
    assert!(total >= 800);
    assert!(total < 800 + 16);
    let mut u = ExplosionTimer::new();
    u.tick(799);
    assert!(!u.finished());
    assert_eq!(u.frame, 15);
    u.tick(1);
    assert!(u.finished());
}

#[test]
fn explosion_animation_removes_finished() {
    let mut w = World::new(win());
    w.bodies.push(player_laser(5, 0, 0));
    w.bodies.push(enemy(6, 0, 0));
    w.enemy_count = 1;
    w.player_laser_hit_enemy();
    w.explosion_to_spawn();
    w.explosion_animation(400);
    assert_eq!(count(&w, Kind::Explosion), 1);
    w.explosion_animation(400);
    assert_eq!(count(&w, Kind::Explosion), 0);
    assert_eq!(count(&w, Kind::Player), 1);
}

#[test]
fn spawn_ticks_once_a_second() {
    assert!(is_spawn_tick(0));
    assert!(!is_spawn_tick(59));
    assert!(is_spawn_tick(60));
    assert!(is_spawn_tick(120));
}

#[test]
fn full_ticks_keep_counts() {
    let mut w = World::new(win());
    let mut now = 0;
    for tick in 0..240u64 {
        let mut input = quiet_input();
        input.spawn_due = is_spawn_tick(tick);
        input.fire_pressed = tick % 10 == 0;
        input.gate_open = tick % 30 == 0;
        input.draws = draws(tick % 120 == 0, 0);
        w.tick_begin(&input);
        let targets: Vec<Point> = w.bodies.iter().map(|b| match b.formation {
            Some(f) => f.pivot,
            None => b.pos,
        }).collect();
        now += 16;
        w.tick_end(&targets, now, 16);
        assert_eq!(w.enemy_count as usize, count(&w, Kind::Enemy));
        assert!(count(&w, Kind::Player) <= 1);
        assert_eq!(count(&w, Kind::Player) == 1, w.player.alive);
        assert_eq!(count(&w, Kind::ExplosionToSpawn), 0);
    }
}

#[test]
fn player_state_starts_dead() {
    let s = PlayerState::new();
    assert!(!s.alive);
    assert_eq!(s.last_shot_ms, NEVER_SHOT_MS);
}

use arena::motion::{diagonal_leg, movement, Input, Vec2};
use arena::scene::UNIT;
use arena::systems::{tick_length_of, BULLET_LIFETIME, BULLET_SPEED, FIRE_COOLDOWN, PLAYER_SPEED};
use arena::timer::Timer;
use arena::world::{Body, Bullet, Entity, Lifetime, Player, Shape, World};

fn idle() -> Input {
    Input { up: false, down: false, left: false, right: false, fire: false }
}

fn firing() -> Input {
    Input { fire: true, ..idle() }
}

fn ready_actor() -> Entity {
    let mut e = Entity::new(
        Vec2 { x: 0, y: 0 },
        Body::Kinematic,
        Shape::Cuboid { half_width: 20 * UNIT, half_height: 20 * UNIT },
    );
    e.player = Some(Player {
        shooting_cooldown: Timer::new_finished(FIRE_COOLDOWN),
        bullet_offset: Vec2 { x: 0, y: 0 },
    });
    e
}

fn projectile(ttl: u64) -> Entity {
    let mut e = Entity::new(
        Vec2 { x: 0, y: 0 },
        Body::Kinematic,
        Shape::Cuboid { half_width: 2 * UNIT, half_height: 2 * UNIT },
    );
    e.bullet = Some(Bullet { velocity: BULLET_SPEED });
    e.lifetime = Some(Lifetime { timer: Timer::new(ttl) });
    e
}

fn count_bullets(w: &World) -> usize {
    w.entities.iter().filter(|e| e.bullet.is_some()).count()
}

#[test]
fn ready_actor_fires_once_and_cools_down() {
    let mut w = World::new();
    let actor = w.spawn(ready_actor()).unwrap();
    let report = w.tick(&firing(), 500_000);
    assert_eq!(report.spawned.len(), 1);
    assert!(report.destroyed.is_empty());
    assert_eq!(count_bullets(&w), 1);
    let a = w.get(actor).unwrap();
    let cooldown = a.player.unwrap().shooting_cooldown;
    assert!(!cooldown.finished());
    assert_eq!(cooldown.elapsed, 0);
}

#[test]
fn projectile_lives_until_its_time_is_up() {
    let mut w = World::new();
    let id = w.spawn(projectile(1_000_000)).unwrap();
    let r = w.tick(&idle(), 999_000);
    assert!(r.destroyed.is_empty());
    assert!(w.contains(id));
    let r = w.tick(&idle(), 1_000);
    assert_eq!(r.destroyed, vec![id]);
    assert!(!w.contains(id));
    let r = w.tick(&idle(), 1_000_000);
    assert!(r.destroyed.is_empty());
}

#[test]
fn fired_projectile_expires_after_its_lifetime() {
    let mut w = World::new();
    w.spawn(ready_actor()).unwrap();
    let report = w.tick(&firing(), 0);
    let bullet = report.spawned[0];
    let r = w.tick(&idle(), BULLET_LIFETIME as i64 - 1);
    assert!(r.destroyed.is_empty());
    assert!(w.contains(bullet));
    let r = w.tick(&idle(), 1);
    assert_eq!(r.destroyed, vec![bullet]);
}

#[test]
fn zero_lifetime_projectile_goes_on_the_first_tick() {
    let mut w = World::new();
    let id = w.spawn(projectile(0)).unwrap();
    let r = w.tick(&idle(), 0);
    assert_eq!(r.destroyed, vec![id]);
    assert_eq!(w.len(), 0);
}

#[test]
fn destroying_twice_removes_once() {
    let mut w = World::new();
    let a = w.spawn(projectile(10)).unwrap();
    let b = w.spawn(projectile(10)).unwrap();
    assert!(w.destroy(a));
    assert!(!w.destroy(a));
    assert_eq!(w.len(), 1);
    assert!(w.contains(b));
    assert!(!w.contains(a));
}

#[test]
fn static_geometry_never_moves() {
    let mut w = World::new();
    w.setup_physics();
    let wall = w.entities[2];
    assert_eq!(wall.body, Body::Static);
    let pushed = Vec2 { x: 5, y: 7 };
    assert!(!w.set_velocity(wall.id, pushed));
    assert!(!w.sync_transform(wall.id, pushed));
    let all = Input { up: true, down: false, left: true, right: false, fire: true };
    for _ in 0..50 {
        w.tick(&all, 16_667);
    }
    assert_eq!(w.get(wall.id).unwrap(), wall);
}

#[test]
fn dynamic_body_takes_velocity_and_transform() {
    let mut w = World::new();
    w.setup_physics();
    let crate_box = w.entities[1];
    assert_eq!(crate_box.body, Body::Dynamic);
    let v = Vec2 { x: 3, y: -4 };
    assert!(w.set_velocity(crate_box.id, v));
    assert!(w.sync_transform(crate_box.id, Vec2 { x: 1, y: 2 }));
    let e = w.get(crate_box.id).unwrap();
    assert_eq!(e.velocity, v);
    assert_eq!(e.pos, Vec2 { x: 1, y: 2 });
}

#[test]
fn timer_finishes_on_first_tick_reaching_duration() {
    let mut t = Timer::new(1_000);
    let ticks = [300u64, 300, 300, 300, 300];
    let mut finished_on = Vec::new();
    for (k, d) in ticks.iter().enumerate() {
        if t.tick(*d) {
            finished_on.push(k);
        }
    }
    assert_eq!(finished_on, vec![3]);
    assert_eq!(t.elapsed, 1_000);
    assert_eq!(t.remaining(), 0);
}

#[test]
fn timer_reset_restarts() {
    let mut t = Timer::new_finished(40);
    assert!(t.finished());
    assert!(!t.tick(5));
    t.reset();
    assert_eq!(t.remaining(), 40);
    assert!(t.tick(40));
}

#[test]
fn holding_fire_spaces_shots_by_cooldown() {
    let mut w = World::new();
    w.spawn(ready_actor()).unwrap();
    let mut now: u64 = 0;
    let mut shots = Vec::new();
    for _ in 0..40 {
        now += 70_000;
        let r = w.tick(&firing(), 70_000);
        if !r.spawned.is_empty() {
            shots.push(now);
        }
    }
    assert!(shots.len() >= 4);
    for pair in shots.windows(2) {
        assert!(pair[1] - pair[0] >= FIRE_COOLDOWN);
    }
    assert_eq!(shots[0], 70_000);
    assert_eq!(shots[1], 70_000 * 9);
}

#[test]
fn releasing_fire_keeps_cooling() {
    let mut w = World::new();
    w.spawn(ready_actor()).unwrap();
    assert_eq!(w.tick(&firing(), 10).spawned.len(), 1);
    assert_eq!(w.tick(&idle(), 400_000).spawned.len(), 0);
    assert_eq!(w.tick(&firing(), 99_999).spawned.len(), 0);
    assert_eq!(w.tick(&firing(), 1).spawned.len(), 1);
}

#[test]
fn opposing_directions_cancel() {
    let ud = Input { up: true, down: true, ..idle() };
    assert_eq!(movement(&ud, PLAYER_SPEED, 1_000_000), Vec2 { x: 0, y: 0 });
    let lr = Input { left: true, right: true, ..idle() };
    assert_eq!(movement(&lr, PLAYER_SPEED, 1_000_000), Vec2 { x: 0, y: 0 });
    let mut w = World::new();
    let a = w.spawn(ready_actor()).unwrap();
    w.tick(&ud, 250_000);
    assert_eq!(w.get(a).unwrap().pos, Vec2 { x: 0, y: 0 });
}

#[test]
fn straight_movement_covers_speed_times_time() {
    let right = Input { right: true, ..idle() };
    assert_eq!(movement(&right, PLAYER_SPEED, 1_000_000), Vec2 { x: 5 * UNIT, y: 0 });
    let down = Input { down: true, ..idle() };
    assert_eq!(movement(&down, PLAYER_SPEED, 500_000), Vec2 { x: 0, y: -5 * UNIT / 2 });
}

#[test]
fn diagonal_movement_is_normalised() {
    let upright = Input { up: true, right: true, ..idle() };
    let v = movement(&upright, PLAYER_SPEED, 1_000_000);
    assert_eq!(v, Vec2 { x: 3_535_533, y: 3_535_533 });
    let d = 5 * UNIT as i128;
    let m = (v.x as i128) * (v.x as i128) + (v.y as i128) * (v.y as i128);
    assert!(m <= d * d);
    let fm = ((v.x as f64).powi(2) + (v.y as f64).powi(2)).sqrt();
    assert!((fm - d as f64).abs() < 2.0);
    let downleft = Input { down: true, left: true, ..idle() };
    assert_eq!(movement(&downleft, PLAYER_SPEED, 16_667), Vec2 { x: -58_926, y: -58_926 });
}

#[test]
fn diagonal_leg_values() {
    assert_eq!(diagonal_leg(0), 0);
    assert_eq!(diagonal_leg(1), 0);
    assert_eq!(diagonal_leg(2), 1);
    assert_eq!(diagonal_leg(10), 7);
    assert_eq!(diagonal_leg(i64::MAX as u64), 6_521_908_912_666_391_105);
}

#[test]
fn negative_clock_report_counts_as_zero() {
    assert_eq!(tick_length_of(-5), 0);
    assert_eq!(tick_length_of(7), 7);
    let mut w = World::new();
    let id = w.spawn(projectile(100)).unwrap();
    w.tick(&idle(), -1_000_000);
    let e = w.get(id).unwrap();
    assert_eq!(e.lifetime.unwrap().timer.elapsed, 0);
    assert_eq!(e.pos, Vec2 { x: BULLET_SPEED, y: 0 });
}

#[test]
fn projectiles_fly_along_x() {
    let mut w = World::new();
    let id = w.spawn(projectile(10_000_000)).unwrap();
    w.tick(&idle(), 500_000);
    assert_eq!(w.get(id).unwrap().pos, Vec2 { x: 8 * UNIT, y: 0 });
    w.tick(&idle(), 16_667);
    assert_eq!(w.get(id).unwrap().pos, Vec2 { x: 16 * UNIT, y: 0 });
}

#[test]
fn projectile_steps_add_up_per_call() {
    let mut w = World::new();
    let id = w.spawn(projectile(10)).unwrap();
    for _ in 0..5 {
        w.move_bullets();
    }
    let e = w.get(id).unwrap();
    assert_eq!(e.pos, Vec2 { x: 5 * BULLET_SPEED, y: 0 });
    assert_eq!(BULLET_SPEED, 8 * UNIT);
}

#[test]
fn spawned_player_fires_after_one_cooldown() {
    let mut w = World::new();
    w.spawn_player();
    assert_eq!(w.tick(&firing(), 0).spawned.len(), 0);
    assert_eq!(w.tick(&firing(), 499_999).spawned.len(), 0);
    assert_eq!(w.tick(&firing(), 1).spawned.len(), 1);
    let mut w = World::new();
    w.spawn_player();
    let r = w.tick(&firing(), 500_000);
    assert_eq!(r.spawned.len(), 1);
    assert!(!w.entities[0].player.unwrap().shooting_cooldown.finished());
}

#[test]
fn projectile_spawns_at_actor_plus_offset() {
    let mut w = World::new();
    let mut a = ready_actor();
    a.player = Some(Player {
        shooting_cooldown: Timer::new_finished(FIRE_COOLDOWN),
        bullet_offset: Vec2 { x: 7, y: -3 },
    });
    w.spawn(a).unwrap();
    let right = Input { right: true, fire: true, ..idle() };
    let r = w.tick(&right, 1_000);
    let b = w.get(r.spawned[0]).unwrap();
    assert_eq!(b.pos, Vec2 { x: 5_000 + 7, y: -3 });
    assert_eq!(b.bullet, Some(Bullet { velocity: BULLET_SPEED }));
}

#[test]
fn ids_run_out() {
    let mut w = World::new();
    w.next_id = u64::MAX;
    assert_eq!(w.spawn(projectile(1)), None);
    assert_eq!(w.len(), 0);
}

#[test]
fn positions_saturate() {
    let mut w = World::new();
    let mut b = projectile(u64::MAX);
    b.pos = Vec2 { x: i64::MAX - 10, y: 0 };
    let id = w.spawn(b).unwrap();
    w.tick(&idle(), 1_000_000);
    assert_eq!(w.get(id).unwrap().pos.x, i64::MAX);
}

#[test]
fn scene_bootstrap_builds_the_arena() {
    let mut w = World::new();
    let board = w.setup_board();
    let player = w.spawn_player();
    let geometry = w.setup_physics();
    assert_eq!(board.len(), 2);
    assert_eq!(player.len(), 1);
    assert_eq!(geometry.len(), 3);
    assert_eq!(w.len(), 6);
    let p = w.get(player[0]).unwrap();
    assert_eq!(p.pos, Vec2 { x: -590 * UNIT, y: 0 });
    assert_eq!(p.body, Body::Kinematic);
    assert_eq!(p.player.unwrap().shooting_cooldown, Timer::new(FIRE_COOLDOWN));
    assert!(w.get(board[0]).unwrap().field.is_some());
    let statics = w.entities.iter().filter(|e| e.body == Body::Static).count();
    assert_eq!(statics, 4);
}

#[test]
fn dynamic_actor_gets_velocity_not_transform() {
    let mut w = World::new();
    let mut a = ready_actor();
    a.body = Body::Dynamic;
    let id = w.spawn(a).unwrap();
    let left = Input { left: true, ..idle() };
    w.tick(&left, 100_000);
    let e = w.get(id).unwrap();
    assert_eq!(e.pos, Vec2 { x: 0, y: 0 });
    assert_eq!(e.velocity, Vec2 { x: -5 * UNIT, y: 0 });
}

use random_walkers::math::Vec2;
use random_walkers::projectile::{Projectile, LAUNCH_SPEED, PROJECTILE_SIZE, RESTING_COORD};

const WIDTH: i64 = 800_000;
const HEIGHT: i64 = 600_000;
const TICK: u64 = 16_667;

#[test]
fn fresh_projectile_rests_off_arena() {
    let p = Projectile::new();
    assert!(!p.is_fired);
    assert_eq!(p.location, Vec2 { x: RESTING_COORD, y: RESTING_COORD });
    assert_eq!(p.velocity, Vec2 { x: LAUNCH_SPEED, y: 0 });
    assert_eq!(p.size, PROJECTILE_SIZE);
}

#[test]
fn fire_points_velocity_at_target() {
    let mut p = Projectile::new();
    let origin = Vec2 { x: 0, y: 0 };
    let target = Vec2 { x: 800_000, y: 600_000 };
    p.fire(origin, target);
    assert!(p.is_fired);
    assert_eq!(p.location, origin);
    // The direction (800, 600) of a 3-4-5 triangle scales exactly.
    assert_eq!(p.velocity, Vec2 { x: 400_000, y: 300_000 });
    // Same direction as target - origin: the cross product vanishes.
    assert_eq!(
        800_000i64 * p.velocity.y - 600_000i64 * p.velocity.x,
        0
    );
}

#[test]
fn fire_at_own_location_gives_zero_velocity() {
    let mut p = Projectile::new();
    let spot = Vec2 { x: 123_000, y: 456_000 };
    p.fire(spot, spot);
    assert!(p.is_fired);
    assert_eq!(p.velocity, Vec2 { x: 0, y: 0 });
    assert_eq!(p.location, spot);
}

#[test]
fn unfired_projectile_does_not_move() {
    let mut p = Projectile::new();
    let before = p;
    p.update(TICK, WIDTH, HEIGHT);
    assert_eq!(p, before);
}

#[test]
fn fired_projectile_advances_inside_arena() {
    let mut p = Projectile::new();
    p.fire(Vec2 { x: 1_000, y: 1_000 }, Vec2 { x: 801_000, y: 601_000 });
    assert_eq!(p.velocity, Vec2 { x: 400_000, y: 300_000 });
    p.update(TICK, WIDTH, HEIGHT);
    // 400_000 * 16_667 / 1_000_000 and 300_000 * 16_667 / 1_000_000.
    assert_eq!(p.location, Vec2 { x: 7_666, y: 6_000 });
    assert!(p.is_fired);
}

#[test]
fn projectile_deactivates_past_right_boundary() {
    let mut p = Projectile::new();
    // Due right at launch speed: 8_333 fixed-point steps per tick.
    p.fire(Vec2 { x: 795_000, y: 1_000 }, Vec2 { x: 1_795_000, y: 1_000 });
    assert_eq!(p.velocity, Vec2 { x: LAUNCH_SPEED, y: 0 });
    p.update(TICK, WIDTH, HEIGHT);
    assert_eq!(p.location, Vec2 { x: 803_333, y: 1_000 });
    assert!(!p.is_fired);
    // Deactivation does not reposition it.
    p.update(TICK, WIDTH, HEIGHT);
    assert_eq!(p.location, Vec2 { x: 803_333, y: 1_000 });
    assert!(!p.is_fired);
}

#[test]
fn projectile_deactivates_past_top_boundary() {
    let mut p = Projectile::new();
    p.fire(Vec2 { x: 1_000, y: 1_000 }, Vec2 { x: 1_000, y: -999_000 });
    assert_eq!(p.velocity, Vec2 { x: 0, y: -LAUNCH_SPEED });
    p.update(TICK, WIDTH, HEIGHT);
    assert_eq!(p.location, Vec2 { x: 1_000, y: -7_333 });
    assert!(!p.is_fired);
}

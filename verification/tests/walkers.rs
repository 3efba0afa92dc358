use random_walkers::color::{Color, ConfigError};
use random_walkers::math::Vec2;
use random_walkers::rng::SimRng;
use random_walkers::walker::{Walker, ARRIVAL_DISTANCE, UNIT_STEP, WALKER_RADIUS, WALKER_SPEED};

const WIDTH: i64 = 800_000;
const HEIGHT: i64 = 600_000;
const TICK: u64 = 16_667;

fn plain_walker(location: Vec2, destination: Vec2) -> Walker {
    Walker {
        location,
        radius: WALKER_RADIUS,
        color: Color { r: 10, g: 20, b: 30, a: 255 },
        destination,
        velocity: Vec2 { x: 0, y: 0 },
        speed: WALKER_SPEED,
        projectile: None,
    }
}

#[test]
fn at_destination_when_on_it() {
    let w = plain_walker(Vec2 { x: 5_000, y: 5_000 }, Vec2 { x: 5_000, y: 5_000 });
    assert!(w.is_at_destination());
}

#[test]
fn not_at_destination_when_three_units_away() {
    let w = plain_walker(Vec2 { x: 0, y: 0 }, Vec2 { x: ARRIVAL_DISTANCE, y: 0 });
    assert!(!w.is_at_destination());
    let near = plain_walker(Vec2 { x: 0, y: 0 }, Vec2 { x: ARRIVAL_DISTANCE - 1, y: 0 });
    assert!(near.is_at_destination());
    let far = plain_walker(Vec2 { x: 0, y: 0 }, Vec2 { x: 10_000, y: 10_000 });
    assert!(!far.is_at_destination());
}

#[test]
fn keep_in_arena_clamps_each_axis() {
    let mut w = plain_walker(Vec2 { x: -5_000, y: 700_000 }, Vec2 { x: 0, y: 0 });
    w.keep_in_arena(WIDTH, HEIGHT);
    assert_eq!(w.location, Vec2 { x: 0, y: HEIGHT });
    let mut inside = plain_walker(Vec2 { x: 400_000, y: 300_000 }, Vec2 { x: 0, y: 0 });
    inside.keep_in_arena(WIDTH, HEIGHT);
    assert_eq!(inside.location, Vec2 { x: 400_000, y: 300_000 });
}

#[test]
fn keep_in_arena_is_idempotent() {
    let cases = [
        Vec2 { x: -5_000, y: 700_000 },
        Vec2 { x: 900_000, y: -1 },
        Vec2 { x: 123, y: 456 },
        Vec2 { x: WIDTH, y: HEIGHT },
    ];
    for loc in cases {
        let mut once = plain_walker(loc, Vec2 { x: 0, y: 0 });
        once.keep_in_arena(WIDTH, HEIGHT);
        let mut twice = once;
        twice.keep_in_arena(WIDTH, HEIGHT);
        assert_eq!(once.location, twice.location);
        assert!(0 <= once.location.x && once.location.x <= WIDTH);
        assert!(0 <= once.location.y && once.location.y <= HEIGHT);
    }
}

#[test]
fn step_moves_toward_destination() {
    let mut w = plain_walker(Vec2 { x: 0, y: 0 }, Vec2 { x: 10_000, y: 0 });
    w.step(TICK);
    // 100 units/s for one tick: 1_666 fixed-point steps due right.
    assert_eq!(w.location, Vec2 { x: 1_666, y: 0 });
    assert_eq!(w.destination, Vec2 { x: 10_000, y: 0 });
}

#[test]
fn step_on_destination_stays_put() {
    let mut w = plain_walker(Vec2 { x: 7_000, y: 7_000 }, Vec2 { x: 7_000, y: 7_000 });
    w.step(TICK);
    assert_eq!(w.location, Vec2 { x: 7_000, y: 7_000 });
}

#[test]
fn random_walk_quartiles_move_one_unit() {
    // Draws 0.9, 0.6, 0.3, 0.1 of the range: up, right, down, left.
    let start = Vec2 { x: 10_000, y: 5_000 };
    let mut w = plain_walker(start, Vec2 { x: 0, y: 0 });
    w.random_step_with(900_000);
    assert_eq!(w.location, Vec2 { x: 10_000, y: 5_000 - UNIT_STEP });
    w.random_step_with(600_000);
    assert_eq!(w.location, Vec2 { x: 11_000, y: 4_000 });
    w.random_step_with(300_000);
    assert_eq!(w.location, Vec2 { x: 11_000, y: 5_000 });
    w.random_step_with(100_000);
    assert_eq!(w.location, start);
}

#[test]
fn seek_walker_starts_at_center_with_projectile() {
    let mut rng = SimRng::from_seed(11);
    let w = Walker::new(WIDTH, HEIGHT, &mut rng);
    assert_eq!(w.location, Vec2 { x: 400_000, y: 300_000 });
    assert_eq!(w.destination, w.location);
    assert_eq!(w.speed, WALKER_SPEED);
    assert_eq!(w.radius, WALKER_RADIUS);
    assert_eq!(w.color.a, 255);
    let p = w.projectile.expect("seek walker owns a projectile");
    assert!(!p.is_fired);
}

#[test]
fn random_walk_walker_takes_palette_color() {
    let mut rng = SimRng::from_seed(11);
    let w = Walker::new_random_walk(WIDTH, HEIGHT, "green", &mut rng)
        .expect("green is in the palette");
    assert_eq!(w.color, Color { r: 0, g: 255, b: 0, a: 255 });
    assert!(w.location.x >= 0 && w.location.x < WIDTH);
    assert!(w.location.y >= 0 && w.location.y < HEIGHT);
    assert_eq!(w.destination, w.location);
    assert!(w.projectile.is_none());

    let bad = Walker::new_random_walk(WIDTH, HEIGHT, "magenta", &mut rng);
    assert_eq!(bad.err(), Some(ConfigError::UnrecognizedColorSelector));
}

#[test]
fn update_without_arrival_keeps_destination() {
    let mut rng = SimRng::from_seed(3);
    let mut w = plain_walker(Vec2 { x: 0, y: 0 }, Vec2 { x: 500_000, y: 0 });
    w.update(WIDTH, HEIGHT, TICK, &mut rng);
    assert_eq!(w.destination, Vec2 { x: 500_000, y: 0 });
    assert_eq!(w.location, Vec2 { x: 1_666, y: 0 });
}

#[test]
fn update_fires_resting_projectile_from_walker() {
    let mut rng = SimRng::from_seed(5);
    let mut w = Walker::new(WIDTH, HEIGHT, &mut rng);
    let origin = w.location;
    w.update(WIDTH, HEIGHT, TICK, &mut rng);
    let p = w.projectile.expect("projectile is kept");
    assert!(p.is_fired);
    assert_eq!(p.location, origin);
}

#[test]
fn walker_converges_to_destination_and_keeps_it() {
    // Arena 800 by 600 units; the walker starts on its own destination
    // at the center, so the first update picks a fresh one.
    let mut rng = SimRng::from_seed(2024);
    let mut w = plain_walker(Vec2 { x: 400_000, y: 300_000 }, Vec2 { x: 400_000, y: 300_000 });
    assert!(w.is_at_destination());
    w.update(WIDTH, HEIGHT, TICK, &mut rng);
    w.keep_in_arena(WIDTH, HEIGHT);
    let target = w.destination;
    assert!(target.x >= 0 && target.x < WIDTH && target.y >= 0 && target.y < HEIGHT);
    let mut steps: u32 = 0;
    while !w.is_at_destination() {
        assert_eq!(w.destination, target, "destination changed before arrival");
        w.update(WIDTH, HEIGHT, TICK, &mut rng);
        w.keep_in_arena(WIDTH, HEIGHT);
        steps += 1;
        assert!(steps < 100_000, "walker failed to converge");
    }
    assert_eq!(w.destination, target);
    let dx = w.location.x - target.x;
    let dy = w.location.y - target.y;
    assert!(dx * dx + dy * dy < ARRIVAL_DISTANCE * ARRIVAL_DISTANCE);
}

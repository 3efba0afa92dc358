use random_walkers::color::Color;
use random_walkers::rng::SimRng;
use random_walkers::sim::{SimMode, SimulationState, TICK_MICROS};

const WIDTH: i64 = 800_000;
const HEIGHT: i64 = 600_000;

#[test]
fn seek_state_starts_with_one_walker() {
    let state = SimulationState::new(WIDTH, HEIGHT, SimRng::from_seed(1));
    assert_eq!(state.walkers.len(), 1);
    assert_eq!(state.width, WIDTH);
    assert_eq!(state.height, HEIGHT);
    assert_eq!(state.accumulator, 0);
    assert_eq!(state.mode, SimMode::Seek);
}

#[test]
fn short_elapsed_time_only_accumulates() {
    let mut state = SimulationState::new(WIDTH, HEIGHT, SimRng::from_seed(1));
    let before = state.walkers.clone();
    state.tick(TICK_MICROS - 1);
    assert_eq!(state.walkers, before);
    assert_eq!(state.accumulator, TICK_MICROS - 1);
}

#[test]
fn accumulator_keeps_the_remainder() {
    let mut state = SimulationState::new(WIDTH, HEIGHT, SimRng::from_seed(1));
    state.tick(2 * TICK_MICROS + 5);
    assert_eq!(state.accumulator, 5);
    // The fractional tick is paid off by the next call.
    state.tick(TICK_MICROS - 5);
    assert_eq!(state.accumulator, 0);
}

#[test]
fn ticks_keep_walkers_inside_arena() {
    let mut state = SimulationState::new(WIDTH, HEIGHT, SimRng::from_seed(99));
    for _ in 0..240 {
        state.tick(TICK_MICROS);
    }
    assert_eq!(state.walkers.len(), 1);
    for w in &state.walkers {
        assert!(0 <= w.location.x && w.location.x <= WIDTH);
        assert!(0 <= w.location.y && w.location.y <= HEIGHT);
        assert!(0 <= w.destination.x && w.destination.x <= WIDTH);
        assert!(0 <= w.destination.y && w.destination.y <= HEIGHT);
    }
}

#[test]
fn seek_walker_fires_projectile_on_first_pass() {
    let mut state = SimulationState::new(WIDTH, HEIGHT, SimRng::from_seed(4));
    state.tick(TICK_MICROS);
    let p = state.walkers[0].projectile.expect("projectile is kept");
    // Fired on the first pass and stepped once since.
    assert!(p.velocity.x != 0 || p.velocity.y != 0 || p.is_fired);
}

#[test]
fn random_walk_state_has_three_preset_walkers() {
    let state = SimulationState::new_random_walk(WIDTH, HEIGHT, SimRng::from_seed(8))
        .expect("the palette holds all three selectors");
    assert_eq!(state.mode, SimMode::RandomWalk);
    assert_eq!(state.walkers.len(), 3);
    assert_eq!(state.walkers[0].color, Color { r: 255, g: 0, b: 0, a: 255 });
    assert_eq!(state.walkers[1].color, Color { r: 0, g: 255, b: 0, a: 255 });
    assert_eq!(state.walkers[2].color, Color { r: 0, g: 0, b: 255, a: 255 });
    for w in &state.walkers {
        assert!(w.projectile.is_none());
        assert!(0 <= w.location.x && w.location.x < WIDTH);
        assert!(0 <= w.location.y && w.location.y < HEIGHT);
    }
}

#[test]
fn random_walk_tick_strides_one_unit() {
    let mut state = SimulationState::new_random_walk(WIDTH, HEIGHT, SimRng::from_seed(8))
        .expect("the palette holds all three selectors");
    let before: Vec<_> = state.walkers.iter().map(|w| w.location).collect();
    state.tick(TICK_MICROS);
    assert_eq!(state.walkers.len(), 3);
    for (w, old) in state.walkers.iter().zip(before.iter()) {
        let dx = (w.location.x - old.x).abs();
        let dy = (w.location.y - old.y).abs();
        // One unit on exactly one axis, unless the clamp cut it short.
        assert!(dx + dy <= 1_000);
        assert!(0 <= w.location.x && w.location.x <= WIDTH);
        assert!(0 <= w.location.y && w.location.y <= HEIGHT);
    }
}

#[test]
fn same_seed_gives_same_run() {
    let mut a = SimulationState::new(WIDTH, HEIGHT, SimRng::from_seed(123));
    let mut b = SimulationState::new(WIDTH, HEIGHT, SimRng::from_seed(123));
    for _ in 0..30 {
        a.tick(TICK_MICROS);
        b.tick(TICK_MICROS);
    }
    assert_eq!(a.walkers, b.walkers);
}

#[test]
fn drawn_points_respect_their_bounds() {
    let mut rng = SimRng::from_seed(77);
    for _ in 0..100 {
        let p = rng.point_in(WIDTH, HEIGHT);
        assert!(0 <= p.x && p.x < WIDTH);
        assert!(0 <= p.y && p.y < HEIGHT);
    }
    let mut tiny = SimRng::from_seed(77);
    for _ in 0..100 {
        let c = tiny.coord_below(3);
        assert!((0..3).contains(&c));
    }
}

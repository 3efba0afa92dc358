use vstd::prelude::*;
use crate::color::{Color, ConfigError, palette_color, palette_spec};
use crate::math::{
    Vec2, sdiv, mag_sq, mag_sq2, normalize, div_trunc, magnitude, moved, clamp,
    step_vel_x, step_vel_y, vec_ok, in_arena, lemma_sdiv_scaled_bound, lemma_sdiv_mul_bound,
    lemma_sdiv_abs_le, lemma_sqrt_floor, SCALE, MAX_DIM, MICROS_PER_SEC,
};
use crate::color::color_white;
use crate::projectile::{Projectile, fired_toward, LAUNCH_SPEED, PROJECTILE_SIZE, RESTING_COORD};
use crate::rng::SimRng;

verus! {

/// Fixed-point steps per second a seeking walker travels (100 units/s).
pub const WALKER_SPEED: i64 = 100_000;

/// Walker radius, in fixed-point steps (15 units).
pub const WALKER_RADIUS: i64 = 15_000;

/// A walker counts as arrived when it is closer to its destination than
/// this (three units).
pub const ARRIVAL_DISTANCE: i64 = 3_000;

/// Largest speed the kinematics helpers accept.
pub const MAX_SPEED: i64 = 1_000_000;

/// Random draws are uniform fractions of this range.
pub const DRAW_RANGE: u64 = 1_000_000;

/// The stride of the random-walk variant: exactly one unit.
pub const UNIT_STEP: i64 = 1_000;

/// An entity that steers toward a destination at constant speed, picks
/// a new destination on arrival, and may own one projectile.
#[derive(Clone, Copy, PartialEq, Eq, Structural, Debug)]
pub struct Walker {
    pub location: Vec2,
    pub radius: i64,
    pub color: Color,
    pub destination: Vec2,
    pub velocity: Vec2,
    pub speed: i64,
    pub projectile: Option<Projectile>,
}

/// Where the x coordinate lands after one seek step from loc toward
/// dest at the given speed over dt microseconds.
pub open spec fn step_loc_x(loc: Vec2, dest: Vec2, speed: int, dt_micros: int) -> int {
    moved(loc.x as int, step_vel_x(dest.x - loc.x, dest.y - loc.y, speed), dt_micros)
}

/// The y counterpart of step_loc_x.
pub open spec fn step_loc_y(loc: Vec2, dest: Vec2, speed: int, dt_micros: int) -> int {
    moved(loc.y as int, step_vel_y(dest.x - loc.x, dest.y - loc.y, speed), dt_micros)
}

/// The x offset of one random-walk stride: the draw's quartile picks
/// one of left, down, right, up.
pub open spec fn rw_delta_x(draw: u64) -> int {
    if draw >= 750_000 {
        0
    } else if draw >= 500_000 {
        UNIT_STEP as int
    } else if draw >= 250_000 {
        0
    } else {
        -(UNIT_STEP as int)
    }
}

/// Whether q is p freshly fired from origin toward some point inside
/// the half-open arena rectangle, the region random targets come from.
pub open spec fn freshly_fired(p: Projectile, origin: Vec2, q: Projectile, width: int, height: int) -> bool {
    exists|t: Vec2|
        0 <= t.x < width && 0 <= t.y < height && #[trigger] fired_toward(p, origin, t, q)
}

/// The y offset of one random-walk stride.
pub open spec fn rw_delta_y(draw: u64) -> int {
    if draw >= 750_000 {
        -(UNIT_STEP as int)
    } else if draw >= 500_000 {
        0
    } else if draw >= 250_000 {
        UNIT_STEP as int
    } else {
        0
    }
}

impl Walker {
    /// The squared distance from the walker to its destination.
    pub open spec fn dist_sq(self) -> int {
        mag_sq2(
            self.location.x - self.destination.x,
            self.location.y - self.destination.y,
        )
    }

    /// Whether the walker counts as arrived: closer to the destination
    /// than the arrival distance.
    pub open spec fn at_destination(self) -> bool {
        self.dist_sq() < (ARRIVAL_DISTANCE as int) * (ARRIVAL_DISTANCE as int)
    }

    /// A walker is well formed for an arena when it and its destination
    /// lie inside, its speed is moderate, and its projectile, if any,
    /// is itself well formed.
    pub open spec fn wf(self, width: int, height: int) -> bool {
        &&& in_arena(self.location, width, height)
        &&& in_arena(self.destination, width, height)
        &&& 0 <= self.speed <= MAX_SPEED
        &&& -MAX_SPEED <= self.velocity.x <= MAX_SPEED
        &&& -MAX_SPEED <= self.velocity.y <= MAX_SPEED
        &&& match self.projectile {
            Some(p) => p.wf(width, height),
            None => true,
        }
    }

    /// The seek-variant walker: it starts at the arena center with a
    /// randomly drawn color, its destination on itself, and an unfired
    /// projectile.
    pub fn new(width: i64, height: i64, rng: &mut SimRng) -> (r: Walker)
        requires
            1 <= width <= MAX_DIM,
            1 <= height <= MAX_DIM,
        ensures
            r.location.x == sdiv(width as int, 2),
            r.location.y == sdiv(height as int, 2),
            r.destination == r.location,
            r.velocity == (Vec2 { x: 0, y: 0 }),
            r.speed == WALKER_SPEED,
            r.radius == WALKER_RADIUS,
            r.projectile matches Some(p) && {
                &&& !p.is_fired
                &&& p.location == (Vec2 { x: RESTING_COORD, y: RESTING_COORD })
                &&& p.velocity == (Vec2 { x: LAUNCH_SPEED, y: 0 })
                &&& p.size == PROJECTILE_SIZE
                &&& p.color == color_white()
            },
            r.color.a == 255,
            r.wf(width as int, height as int),
    {
        let x = div_trunc(width, 2);
        let y = div_trunc(height, 2);
        proof {
            lemma_sdiv_abs_le(width as int, 2);
            lemma_sdiv_abs_le(height as int, 2);
        }
        let cr = rng.channel();
        let cg = rng.channel();
        let cb = rng.channel();
        Walker {
            location: Vec2 { x, y },
            radius: WALKER_RADIUS,
            color: Color { r: cr, g: cg, b: cb, a: 255 },
            destination: Vec2 { x, y },
            velocity: Vec2 { x: 0, y: 0 },
            speed: WALKER_SPEED,
            projectile: Some(Projectile::new()),
        }
    }

    /// The random-walk-variant walker: it starts at a uniformly random
    /// point with a palette color named by the selector, and owns no
    /// projectile. An unrecognized selector is the configuration error.
    pub fn new_random_walk(width: i64, height: i64, selector: &str, rng: &mut SimRng) -> (r:
        Result<Walker, ConfigError>)
        requires
            1 <= width <= MAX_DIM,
            1 <= height <= MAX_DIM,
        ensures
            r is Ok <==> palette_spec(selector) is Ok,
            r matches Ok(w) ==> {
                &&& palette_spec(selector) == Ok::<Color, ConfigError>(w.color)
                &&& 0 <= w.location.x < width && 0 <= w.location.y < height
                &&& w.destination == w.location
                &&& w.velocity == (Vec2 { x: 0, y: 0 })
                &&& w.speed == WALKER_SPEED
                &&& w.radius == WALKER_RADIUS
                &&& w.projectile is None
                &&& w.wf(width as int, height as int)
            },
            r is Err ==> r == Err::<Walker, ConfigError>(ConfigError::UnrecognizedColorSelector),
    {
        let color = match palette_color(selector) {
            Ok(c) => c,
            Err(e) => {
                return Err(e);
            },
        };
        let location = rng.point_in(width, height);
        Ok(
            Walker {
                location,
                radius: WALKER_RADIUS,
                color,
                destination: location,
                velocity: Vec2 { x: 0, y: 0 },
                speed: WALKER_SPEED,
                projectile: None,
            },
        )
    }

    /// Whether the walker is within the arrival distance of its
    /// destination.
    pub fn is_at_destination(&self) -> (r: bool)
        requires
            vec_ok(self.location),
            vec_ok(self.destination),
        ensures
            r == self.at_destination(),
    {
        let d = Vec2 {
            x: self.location.x - self.destination.x,
            y: self.location.y - self.destination.y,
        };
        let m = magnitude(d);
        proof {
            assert(d.x * d.x >= 0 && d.y * d.y >= 0) by (nonlinear_arith);
            lemma_sqrt_floor(mag_sq(d));
            if m < ARRIVAL_DISTANCE {
                assert((m as int + 1) * (m as int + 1) <= 3_000 * 3_000) by (nonlinear_arith)
                    requires 0 <= m as int + 1 <= 3_000;
            } else {
                assert(3_000 * 3_000 <= m as int * m as int) by (nonlinear_arith)
                    requires 3_000 <= m as int;
            }
        }
        m < ARRIVAL_DISTANCE
    }

    /// Clamps the location onto the arena rectangle, each axis on its
    /// own.
    pub fn keep_in_arena(&mut self, arena_width: i64, arena_height: i64)
        requires
            0 <= arena_width,
            0 <= arena_height,
        ensures
            final(self).location.x == clamp(old(self).location.x as int, arena_width as int),
            final(self).location.y == clamp(old(self).location.y as int, arena_height as int),
            final(self).radius == old(self).radius,
            final(self).color == old(self).color,
            final(self).destination == old(self).destination,
            final(self).velocity == old(self).velocity,
            final(self).speed == old(self).speed,
            final(self).projectile == old(self).projectile,
    {
        if self.location.y < 0 {
            self.location.y = 0;
        } else if self.location.y > arena_height {
            self.location.y = arena_height;
        }
        if self.location.x < 0 {
            self.location.x = 0;
        } else if self.location.x > arena_width {
            self.location.x = arena_width;
        }
    }

    /// One seek step: move toward the destination at the walker's speed
    /// for dt microseconds; a walker exactly on its destination does
    /// not move.
    pub fn step(&mut self, dt_micros: u64)
        requires
            dt_micros <= MICROS_PER_SEC,
            vec_ok(old(self).location),
            vec_ok(old(self).destination),
            0 <= old(self).speed <= MAX_SPEED,
        ensures
            final(self).location.x == step_loc_x(
                old(self).location,
                old(self).destination,
                old(self).speed as int,
                dt_micros as int,
            ),
            final(self).location.y == step_loc_y(
                old(self).location,
                old(self).destination,
                old(self).speed as int,
                dt_micros as int,
            ),
            old(self).location.x - old(self).speed <= final(self).location.x
                <= old(self).location.x + old(self).speed,
            old(self).location.y - old(self).speed <= final(self).location.y
                <= old(self).location.y + old(self).speed,
            final(self).radius == old(self).radius,
            final(self).color == old(self).color,
            final(self).destination == old(self).destination,
            final(self).velocity == old(self).velocity,
            final(self).speed == old(self).speed,
            final(self).projectile == old(self).projectile,
    {
        let d = Vec2 {
            x: self.destination.x - self.location.x,
            y: self.destination.y - self.location.y,
        };
        let mut dir = Vec2 { x: 0, y: 0 };
        if let Some(u) = normalize(d) {
            dir = u;
        }
        proof {
            assert(-1_000_000_000 <= dir.x as int * self.speed as int <= 1_000_000_000)
                by (nonlinear_arith)
                requires
                    -1_000 <= dir.x as int <= 1_000,
                    0 <= self.speed as int <= 1_000_000;
            assert(-1_000_000_000 <= dir.y as int * self.speed as int <= 1_000_000_000)
                by (nonlinear_arith)
                requires
                    -1_000 <= dir.y as int <= 1_000,
                    0 <= self.speed as int <= 1_000_000;
        }
        let vx = div_trunc(dir.x * self.speed, SCALE);
        let vy = div_trunc(dir.y * self.speed, SCALE);
        proof {
            if self.speed == 0 {
                assert(dir.x as int * 0 == 0) by (nonlinear_arith);
                assert(dir.y as int * 0 == 0) by (nonlinear_arith);
                assert(sdiv(0, SCALE as int) == 0) by {
                    vstd::arithmetic::div_mod::lemma_div_basics(SCALE as int);
                }
            } else {
                lemma_sdiv_scaled_bound(dir.x as int, SCALE as int, self.speed as int);
                lemma_sdiv_scaled_bound(dir.y as int, SCALE as int, self.speed as int);
            }
            if d.x == 0 && d.y == 0 {
                assert(0int * self.speed as int == 0) by (nonlinear_arith);
                assert(sdiv(0, SCALE as int) == 0) by {
                    vstd::arithmetic::div_mod::lemma_div_basics(SCALE as int);
                }
            }
            assert(-1_000_000_000_000 <= vx as int * dt_micros as int <= 1_000_000_000_000)
                by (nonlinear_arith)
                requires
                    -1_000_000 <= vx as int <= 1_000_000,
                    0 <= dt_micros as int <= 1_000_000;
            assert(-1_000_000_000_000 <= vy as int * dt_micros as int <= 1_000_000_000_000)
                by (nonlinear_arith)
                requires
                    -1_000_000 <= vy as int <= 1_000_000,
                    0 <= dt_micros as int <= 1_000_000;
        }
        let mx = div_trunc(vx * (dt_micros as i64), MICROS_PER_SEC);
        let my = div_trunc(vy * (dt_micros as i64), MICROS_PER_SEC);
        proof {
            lemma_sdiv_mul_bound(
                dt_micros as int,
                vx as int,
                MICROS_PER_SEC as int,
                self.speed as int,
            );
            lemma_sdiv_mul_bound(
                dt_micros as int,
                vy as int,
                MICROS_PER_SEC as int,
                self.speed as int,
            );
        }
        self.location = Vec2 { x: self.location.x + mx, y: self.location.y + my };
    }

    /// One stride of the random-walk variant, driven by a supplied
    /// draw: the quartile of the draw picks a one-unit move up, right,
    /// down or left. The stride is deliberately not scaled by the
    /// timestep: each call moves exactly one unit, whatever time
    /// passed.
    pub fn random_step_with(&mut self, draw: u64)
        requires
            draw < DRAW_RANGE,
            vec_ok(old(self).location),
        ensures
            final(self).location.x == old(self).location.x + rw_delta_x(draw),
            final(self).location.y == old(self).location.y + rw_delta_y(draw),
            final(self).radius == old(self).radius,
            final(self).color == old(self).color,
            final(self).destination == old(self).destination,
            final(self).velocity == old(self).velocity,
            final(self).speed == old(self).speed,
            final(self).projectile == old(self).projectile,
    {
        if draw >= 750_000 {
            self.location.y = self.location.y - UNIT_STEP;
        } else if draw >= 500_000 {
            self.location.x = self.location.x + UNIT_STEP;
        } else if draw >= 250_000 {
            self.location.y = self.location.y + UNIT_STEP;
        } else {
            self.location.x = self.location.x - UNIT_STEP;
        }
    }

    /// One stride of the random-walk variant with a fresh uniform draw.
    pub fn random_step(&mut self, rng: &mut SimRng)
        requires
            vec_ok(old(self).location),
        ensures
            exists|draw: u64|
                draw < DRAW_RANGE && final(self).location.x == old(self).location.x
                    + #[trigger] rw_delta_x(draw) && final(self).location.y == old(
                    self,
                ).location.y + rw_delta_y(draw),
            old(self).location.x - UNIT_STEP <= final(self).location.x
                <= old(self).location.x + UNIT_STEP,
            old(self).location.y - UNIT_STEP <= final(self).location.y
                <= old(self).location.y + UNIT_STEP,
            final(self).radius == old(self).radius,
            final(self).color == old(self).color,
            final(self).destination == old(self).destination,
            final(self).velocity == old(self).velocity,
            final(self).speed == old(self).speed,
            final(self).projectile == old(self).projectile,
    {
        let draw = rng.next_below(DRAW_RANGE);
        self.random_step_with(draw);
    }

    /// One seek-variant tick: fire the projectile toward a random
    /// target if it is resting, pick a new random destination if
    /// arrived, then step toward the destination. The destination never
    /// changes before arrival.
    pub fn update(&mut self, width: i64, height: i64, dt_micros: u64, rng: &mut SimRng)
        requires
            1 <= width <= MAX_DIM,
            1 <= height <= MAX_DIM,
            dt_micros <= MICROS_PER_SEC,
            old(self).wf(width as int, height as int),
        ensures
            final(self).radius == old(self).radius,
            final(self).color == old(self).color,
            final(self).speed == old(self).speed,
            final(self).velocity == old(self).velocity,
            in_arena(final(self).destination, width as int, height as int),
            !old(self).at_destination() ==> final(self).destination == old(self).destination,
            old(self).at_destination() ==> 0 <= final(self).destination.x < width
                && 0 <= final(self).destination.y < height,
            final(self).location.x == step_loc_x(
                old(self).location,
                final(self).destination,
                old(self).speed as int,
                dt_micros as int,
            ),
            final(self).location.y == step_loc_y(
                old(self).location,
                final(self).destination,
                old(self).speed as int,
                dt_micros as int,
            ),
            old(self).location.x - old(self).speed <= final(self).location.x
                <= old(self).location.x + old(self).speed,
            old(self).location.y - old(self).speed <= final(self).location.y
                <= old(self).location.y + old(self).speed,
            old(self).projectile is None ==> final(self).projectile is None,
            old(self).projectile matches Some(p) ==> (p.is_fired ==> final(self).projectile
                == old(self).projectile),
            old(self).projectile matches Some(p) ==> (!p.is_fired
                ==> (final(self).projectile matches Some(q) && q.wf(width as int, height as int)
                    && freshly_fired(p, old(self).location, q, width as int, height as int))),
    {
        if self.projectile.is_some() {
            let mut p = self.projectile.unwrap();
            if !p.is_fired {
                let ghost p0 = p;
                let target = rng.point_in(width, height);
                p.fire(self.location, target);
                proof {
                    assert(freshly_fired(p0, old(self).location, p, width as int, height as int))
                        by {
                        assert(fired_toward(p0, old(self).location, target, p));
                    }
                }
                self.projectile = Some(p);
            }
        }
        if self.is_at_destination() {
            let nd = rng.point_in(width, height);
            self.destination = nd;
        }
        self.step(dt_micros);
    }
}

/// Clamping onto the arena is idempotent, and a clamped coordinate lies
/// inside the arena on both axes.
pub proof fn lemma_keep_in_arena_idempotent(loc: Vec2, width: int, height: int)
    requires
        0 <= width,
        0 <= height,
    ensures
        0 <= clamp(loc.x as int, width) <= width,
        0 <= clamp(loc.y as int, height) <= height,
        clamp(clamp(loc.x as int, width), width) == clamp(loc.x as int, width),
        clamp(clamp(loc.y as int, height), height) == clamp(loc.y as int, height),
{
}

/// A walker standing exactly on its destination reports arrival; one
/// farther away than the arrival distance does not.
pub proof fn lemma_at_destination_threshold(w: Walker)
    ensures
        w.location == w.destination ==> w.at_destination(),
        w.dist_sq() > (ARRIVAL_DISTANCE as int) * (ARRIVAL_DISTANCE as int)
            ==> !w.at_destination(),
{
    if w.location == w.destination {
        let dx = w.location.x - w.destination.x;
        let dy = w.location.y - w.destination.y;
        assert(dx * dx + dy * dy == 0) by (nonlinear_arith)
            requires dx == 0, dy == 0;
    }
}

} // verus!

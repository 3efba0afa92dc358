use vstd::prelude::*;
use crate::color::{Color, color_white};
use crate::math::{
    Vec2, sdiv, mag_sq2, sqrt_floor, norm_x2, norm_y2, normalize, div_trunc, moved,
    step_vel_x, step_vel_y, coord_ok, vec_ok, in_arena, lemma_sdiv_scaled_bound,
    lemma_sdiv_mul_bound, lemma_norm_bounded, SCALE, MAX_DIM, MICROS_PER_SEC,
};

verus! {

/// Fixed-point steps per second a projectile travels once fired
/// (500 units per second).
pub const LAUNCH_SPEED: i64 = 500_000;

/// Projectile radius, in fixed-point steps (five units).
pub const PROJECTILE_SIZE: i64 = 5_000;

/// Where a fresh, unfired projectile rests, just off the arena.
pub const RESTING_COORD: i64 = -5_000;

/// A fire-and-forget entity: it launches from an origin toward a
/// target, advances while fired, and deactivates on leaving the arena.
#[derive(Clone, Copy, PartialEq, Eq, Structural, Debug)]
pub struct Projectile {
    pub location: Vec2,
    pub velocity: Vec2,
    pub size: i64,
    pub is_fired: bool,
    pub color: Color,
}

/// The x component of the velocity a projectile gains when fired from
/// origin toward target.
pub open spec fn fire_vel_x(origin: Vec2, target: Vec2) -> int {
    step_vel_x(target.x - origin.x, target.y - origin.y, LAUNCH_SPEED as int)
}

/// The y component of the velocity a projectile gains when fired from
/// origin toward target.
pub open spec fn fire_vel_y(origin: Vec2, target: Vec2) -> int {
    step_vel_y(target.x - origin.x, target.y - origin.y, LAUNCH_SPEED as int)
}

/// Whether a point lies strictly outside the arena rectangle on some
/// axis; the comparison against each bound is exclusive.
pub open spec fn off_screen_at(x: int, y: int, width: int, height: int) -> bool {
    y < 0 || x > width || y > height || x < 0
}

/// How one update step relates a projectile to its successor: a resting
/// one stays put; a fired one advances by its velocity over dt and is
/// still fired exactly when the new location lies inside the arena.
pub open spec fn proj_step(pre: Projectile, post: Projectile, dt_micros: int, width: int, height: int) -> bool {
    &&& (!pre.is_fired ==> post == pre)
    &&& (pre.is_fired ==> {
        &&& post.location.x == moved(pre.location.x as int, pre.velocity.x as int, dt_micros)
        &&& post.location.y == moved(pre.location.y as int, pre.velocity.y as int, dt_micros)
        &&& post.is_fired == !off_screen_at(
            post.location.x as int,
            post.location.y as int,
            width,
            height,
        )
    })
    &&& post.velocity == pre.velocity
    &&& post.size == pre.size
    &&& post.color == pre.color
}

/// How firing from origin toward target relates a projectile to its
/// successor: fired, standing on the origin, aimed at the target at
/// launch speed, with size and color kept.
pub open spec fn fired_toward(pre: Projectile, origin: Vec2, target: Vec2, post: Projectile) -> bool {
    &&& post.is_fired
    &&& post.location == origin
    &&& post.velocity.x == fire_vel_x(origin, target)
    &&& post.velocity.y == fire_vel_y(origin, target)
    &&& post.size == pre.size
    &&& post.color == pre.color
}

impl Projectile {
    /// A projectile is well formed for an arena when its velocity is at
    /// most the launch speed per axis and its location is inside the
    /// arena while fired, or near it while resting.
    pub open spec fn wf(self, width: int, height: int) -> bool {
        &&& -LAUNCH_SPEED <= self.velocity.x <= LAUNCH_SPEED
        &&& -LAUNCH_SPEED <= self.velocity.y <= LAUNCH_SPEED
        &&& if self.is_fired {
            in_arena(self.location, width, height)
        } else {
            vec_ok(self.location)
        }
    }

    /// A fresh projectile: inactive, resting off-arena, white, with a
    /// rightward launch-speed velocity that the first fire overwrites.
    pub fn new() -> (r: Projectile)
        ensures
            r.location == (Vec2 { x: RESTING_COORD, y: RESTING_COORD }),
            r.velocity == (Vec2 { x: LAUNCH_SPEED, y: 0 }),
            r.size == PROJECTILE_SIZE,
            !r.is_fired,
            r.color == color_white(),
            forall|w: int, h: int| #[trigger] r.wf(w, h),
    {
        Projectile {
            location: Vec2 { x: RESTING_COORD, y: RESTING_COORD },
            velocity: Vec2 { x: LAUNCH_SPEED, y: 0 },
            size: PROJECTILE_SIZE,
            is_fired: false,
            color: Color { r: 255, g: 255, b: 255, a: 255 },
        }
    }

    /// Whether the projectile has left the arena rectangle.
    pub fn is_off_screen(&self, width: i64, height: i64) -> (r: bool)
        ensures
            r == off_screen_at(self.location.x as int, self.location.y as int, width as int, height as int),
    {
        self.location.y < 0 || self.location.x > width || self.location.y > height
            || self.location.x < 0
    }

    /// Launches from origin toward target: the location moves to the
    /// origin, the velocity becomes the unit direction toward the
    /// target scaled to the launch speed (zero when origin == target),
    /// and the projectile becomes fired.
    pub fn fire(&mut self, origin: Vec2, target: Vec2)
        requires
            vec_ok(origin),
            vec_ok(target),
        ensures
            fired_toward(*old(self), origin, target, *final(self)),
            final(self).is_fired,
            final(self).location == origin,
            final(self).velocity.x == step_vel_x(
                target.x - origin.x,
                target.y - origin.y,
                LAUNCH_SPEED as int,
            ),
            final(self).velocity.y == step_vel_y(
                target.x - origin.x,
                target.y - origin.y,
                LAUNCH_SPEED as int,
            ),
            -LAUNCH_SPEED <= final(self).velocity.x <= LAUNCH_SPEED,
            -LAUNCH_SPEED <= final(self).velocity.y <= LAUNCH_SPEED,
            final(self).size == old(self).size,
            final(self).color == old(self).color,
    {
        let d = Vec2 { x: target.x - origin.x, y: target.y - origin.y };
        let mut dir = Vec2 { x: 0, y: 0 };
        if let Some(u) = normalize(d) {
            dir = u;
        }
        let vx = div_trunc(dir.x * LAUNCH_SPEED, SCALE);
        let vy = div_trunc(dir.y * LAUNCH_SPEED, SCALE);
        proof {
            lemma_sdiv_scaled_bound(dir.x as int, SCALE as int, LAUNCH_SPEED as int);
            lemma_sdiv_scaled_bound(dir.y as int, SCALE as int, LAUNCH_SPEED as int);
        }
        self.velocity = Vec2 { x: vx, y: vy };
        self.location = origin;
        self.is_fired = true;
    }

    /// One simulation step: a resting projectile stays put; a fired one
    /// advances by its velocity over dt and deactivates exactly when
    /// the new location lies outside the arena. Deactivation does not
    /// reposition it: the next fire does.
    pub fn update(&mut self, dt_micros: u64, width: i64, height: i64)
        requires
            dt_micros <= MICROS_PER_SEC,
            0 <= width <= MAX_DIM,
            0 <= height <= MAX_DIM,
            coord_ok(old(self).location.x as int),
            coord_ok(old(self).location.y as int),
            -LAUNCH_SPEED <= old(self).velocity.x <= LAUNCH_SPEED,
            -LAUNCH_SPEED <= old(self).velocity.y <= LAUNCH_SPEED,
        ensures
            proj_step(*old(self), *final(self), dt_micros as int, width as int, height as int),
            old(self).location.x - LAUNCH_SPEED <= final(self).location.x
                <= old(self).location.x + LAUNCH_SPEED,
            old(self).location.y - LAUNCH_SPEED <= final(self).location.y
                <= old(self).location.y + LAUNCH_SPEED,
    {
        if self.is_fired {
            proof {
                assert(
                    -500_000_000_000 <= self.velocity.x as int * dt_micros as int
                        <= 500_000_000_000
                ) by (nonlinear_arith)
                    requires
                        -500_000 <= self.velocity.x as int <= 500_000,
                        0 <= dt_micros as int <= 1_000_000;
                assert(
                    -500_000_000_000 <= self.velocity.y as int * dt_micros as int
                        <= 500_000_000_000
                ) by (nonlinear_arith)
                    requires
                        -500_000 <= self.velocity.y as int <= 500_000,
                        0 <= dt_micros as int <= 1_000_000;
            }
            let mx = div_trunc(self.velocity.x * (dt_micros as i64), MICROS_PER_SEC);
            let my = div_trunc(self.velocity.y * (dt_micros as i64), MICROS_PER_SEC);
            proof {
                lemma_sdiv_mul_bound(
                    dt_micros as int,
                    self.velocity.x as int,
                    MICROS_PER_SEC as int,
                    LAUNCH_SPEED as int,
                );
                lemma_sdiv_mul_bound(
                    dt_micros as int,
                    self.velocity.y as int,
                    MICROS_PER_SEC as int,
                    LAUNCH_SPEED as int,
                );
            }
            self.location = Vec2 { x: self.location.x + mx, y: self.location.y + my };
            if self.is_off_screen(width, height) {
                self.is_fired = false;
            }
        }
    }
}

/// Firing away from the origin always activates the projectile and
/// sends it along the direction from origin to target: neither velocity
/// component points against its axis of the offset, and the velocity is
/// not the zero vector.
pub proof fn lemma_fire_direction(origin: Vec2, target: Vec2)
    requires
        vec_ok(origin),
        vec_ok(target),
        origin != target,
    ensures
        ({
            let dx = target.x - origin.x;
            let dy = target.y - origin.y;
            let vx = step_vel_x(dx, dy, LAUNCH_SPEED as int);
            let vy = step_vel_y(dx, dy, LAUNCH_SPEED as int);
            &&& dx >= 0 ==> vx >= 0
            &&& dx <= 0 ==> vx <= 0
            &&& dy >= 0 ==> vy >= 0
            &&& dy <= 0 ==> vy <= 0
            &&& !(vx == 0 && vy == 0)
        }),
{
    let dx = target.x - origin.x;
    let dy = target.y - origin.y;
    let d = Vec2 { x: dx as i64, y: dy as i64 };
    assert(d.x == dx && d.y == dy);
    assert(!(d.x == 0 && d.y == 0));
    lemma_norm_bounded(d);
    let m = sqrt_floor(mag_sq2(dx, dy));
    let nx = norm_x2(dx, dy);
    let ny = norm_y2(dx, dy);
    lemma_sdiv_sign_and_bound(nx, LAUNCH_SPEED as int);
    lemma_sdiv_sign_and_bound(ny, LAUNCH_SPEED as int);
    // The magnitude is at most |dx| + |dy|, so the scaled components
    // cannot both truncate to zero.
    let ax = if dx >= 0 { dx } else { -dx };
    let ay = if dy >= 0 { dy } else { -dy };
    assert(m * m <= mag_sq2(dx, dy)) by {
        crate::math::lemma_sqrt_floor(mag_sq2(dx, dy));
    }
    assert(m <= ax + ay) by (nonlinear_arith)
        requires
            m * m <= dx * dx + dy * dy,
            ax == if dx >= 0 { dx } else { -dx },
            ay == if dy >= 0 { dy } else { -dy },
            m >= 0;
    if nx == 0 && ny == 0 {
        lemma_sdiv_zero_abs(dx, m);
        lemma_sdiv_zero_abs(dy, m);
        assert(false) by (nonlinear_arith)
            requires
                ax * (SCALE as int) < m,
                ay * (SCALE as int) < m,
                m <= ax + ay,
                ax >= 0,
                ay >= 0,
                ax + ay >= 1;
    }
    if nx != 0 {
        assert(step_vel_x(dx, dy, LAUNCH_SPEED as int) != 0);
    } else {
        assert(step_vel_y(dx, dy, LAUNCH_SPEED as int) != 0);
    }
}

/// When the scaled unit component along an axis truncates to zero, the
/// axis offset times SCALE lies below the magnitude.
proof fn lemma_sdiv_zero_abs(v: int, m: int)
    requires
        1 <= m,
        sdiv(v * (SCALE as int), m) == 0,
    ensures
        (if v >= 0 { v } else { -v }) * (SCALE as int) < m,
{
    let s = SCALE as int;
    let av = if v >= 0 { v } else { -v };
    assert(av * s >= 0) by (nonlinear_arith)
        requires av >= 0, s >= 0;
    if v >= 0 {
        if av * s >= m {
            vstd::arithmetic::div_mod::lemma_div_is_ordered(m, av * s, m);
            assert(m / m == 1) by {
                vstd::arithmetic::div_mod::lemma_div_basics(m);
            }
            assert(false);
        }
    } else {
        assert(v * s <= 0) by (nonlinear_arith)
            requires v <= 0, s >= 0;
        assert(-(v * s) == av * s) by (nonlinear_arith)
            requires av == -v;
        if v * s == 0 {
            assert(av * s == 0);
        } else {
            if av * s >= m {
                vstd::arithmetic::div_mod::lemma_div_is_ordered(m, av * s, m);
                assert(m / m == 1) by {
                    vstd::arithmetic::div_mod::lemma_div_basics(m);
                }
                assert(false);
            }
        }
    }
}

/// Scaling a nonzero value by the launch speed over SCALE keeps its
/// sign and keeps nonzero values nonzero.
proof fn lemma_sdiv_sign_and_bound(n: int, speed: int)
    requires
        -(SCALE as int) <= n <= SCALE as int,
        SCALE as int <= speed,
    ensures
        n >= 0 ==> sdiv(n * speed, SCALE as int) >= 0,
        n <= 0 ==> sdiv(n * speed, SCALE as int) <= 0,
        n != 0 ==> sdiv(n * speed, SCALE as int) != 0,
{
    let s = SCALE as int;
    if n == 0 {
        assert(0 * speed == 0) by (nonlinear_arith);
        assert(sdiv(0, s) == 0) by {
            vstd::arithmetic::div_mod::lemma_div_basics(s);
        }
    } else if n > 0 {
        assert(n * speed >= 1 * s) by (nonlinear_arith)
            requires n >= 1, speed >= s, s >= 1;
        vstd::arithmetic::div_mod::lemma_div_is_ordered(s, n * speed, s);
        assert(s / s == 1) by {
            vstd::arithmetic::div_mod::lemma_div_basics(s);
        }
    } else {
        let p = -n;
        assert(p * speed >= 1 * s) by (nonlinear_arith)
            requires p >= 1, speed >= s, s >= 1;
        vstd::arithmetic::div_mod::lemma_div_is_ordered(s, p * speed, s);
        assert(s / s == 1) by {
            vstd::arithmetic::div_mod::lemma_div_basics(s);
        }
        assert(-(n * speed) == p * speed) by (nonlinear_arith)
            requires p == -n;
        assert(n * speed < 0) by (nonlinear_arith)
            requires n < 0, speed > 0;
    }
}

/// A fired projectile whose step crosses any arena boundary comes to
/// rest: after that update it reports not fired.
pub proof fn lemma_deactivates_off_screen(p: Projectile, q: Projectile, dt_micros: u64, width: i64, height: i64)
    requires
        p.is_fired,
        q.location.x == moved(p.location.x as int, p.velocity.x as int, dt_micros as int),
        q.location.y == moved(p.location.y as int, p.velocity.y as int, dt_micros as int),
        q.is_fired == !off_screen_at(q.location.x as int, q.location.y as int, width as int, height as int),
        off_screen_at(q.location.x as int, q.location.y as int, width as int, height as int),
    ensures
        !q.is_fired,
{
}

} // verus!

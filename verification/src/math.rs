use vstd::prelude::*;
use vstd::arithmetic::div_mod::{lemma_div_is_ordered, lemma_div_pos_is_pos};

verus! {

/// Coordinates are fixed point: `SCALE` fixed-point steps make one arena unit.
pub const SCALE: i64 = 1000;

/// Largest arena dimension, in fixed-point steps (one million units).
pub const MAX_DIM: i64 = 1_000_000_000;

/// Largest coordinate magnitude the vector helpers accept.
pub const MAX_COORD: i64 = 2_100_000_000;

/// A 2D vector in fixed-point steps; used both as a position and as a
/// direction or velocity.
#[derive(Clone, Copy, PartialEq, Eq, Structural, Debug)]
pub struct Vec2 {
    pub x: i64,
    pub y: i64,
}

impl Vec2 {
    pub open spec fn bounded(self) -> bool {
        -MAX_COORD <= self.x <= MAX_COORD && -MAX_COORD <= self.y <= MAX_COORD
    }

    pub fn new(x: i64, y: i64) -> (r: Vec2)
        ensures
            r.x == x && r.y == y,
    {
        Vec2 { x, y }
    }
}

/// Division truncating toward zero, the rounding that the executable
/// helpers use on signed values.
pub open spec fn sdiv(a: int, b: int) -> int {
    if a >= 0 {
        a / b
    } else {
        -((-a) / b)
    }
}

/// The squared Euclidean magnitude of the vector (dx, dy).
pub open spec fn mag_sq2(dx: int, dy: int) -> int {
    dx * dx + dy * dy
}

/// The squared Euclidean magnitude of a vector.
pub open spec fn mag_sq(v: Vec2) -> int {
    mag_sq2(v.x as int, v.y as int)
}

/// The integer square root: the largest r with r * r <= n.
pub open spec fn sqrt_floor(n: int) -> int
    decreases n,
{
    if n < 1 {
        0
    } else {
        let r = sqrt_floor(n - 1);
        if (r + 1) * (r + 1) <= n {
            r + 1
        } else {
            r
        }
    }
}

/// sqrt_floor is indeed the floor of the square root.
pub proof fn lemma_sqrt_floor(n: int)
    requires
        n >= 0,
    ensures
        0 <= sqrt_floor(n),
        sqrt_floor(n) * sqrt_floor(n) <= n,
        n < (sqrt_floor(n) + 1) * (sqrt_floor(n) + 1),
    decreases n,
{
    if n >= 1 {
        lemma_sqrt_floor(n - 1);
        let r = sqrt_floor(n - 1);
        if (r + 1) * (r + 1) <= n {
            assert(n - 1 < (r + 1) * (r + 1));
            assert(n == (r + 1) * (r + 1));
            assert((r + 1) * (r + 1) < (r + 2) * (r + 2)) by (nonlinear_arith)
                requires r >= 0;
        }
    }
}

/// Any r in the square-root window equals sqrt_floor(n).
pub proof fn lemma_sqrt_floor_unique(n: int, r: int)
    requires
        n >= 0,
        r >= 0,
        r * r <= n,
        n < (r + 1) * (r + 1),
    ensures
        r == sqrt_floor(n),
{
    lemma_sqrt_floor(n);
    let s = sqrt_floor(n);
    if r < s {
        assert((r + 1) * (r + 1) <= s * s) by (nonlinear_arith)
            requires 0 <= r + 1 <= s;
        assert(false);
    }
    if s < r {
        assert((s + 1) * (s + 1) <= r * r) by (nonlinear_arith)
            requires 0 <= s + 1 <= r;
        assert(false);
    }
}

/// The square root is monotone over the squares: a coordinate never
/// exceeds the magnitude of its vector.
pub proof fn lemma_sqrt_floor_at_least(n: int, a: int)
    requires
        0 <= a,
        a * a <= n,
    ensures
        a <= sqrt_floor(n),
{
    lemma_sqrt_floor(n);
    let s = sqrt_floor(n);
    if s < a {
        assert((s + 1) * (s + 1) <= a * a) by (nonlinear_arith)
            requires 0 <= s + 1 <= a;
        assert(false);
    }
}

/// Integer square root by bisection.
pub fn isqrt(n: u64) -> (r: u64)
    requires
        n <= 8_900_000_000_000_000_000,
    ensures
        r == sqrt_floor(n as int),
        r <= 3_000_000_000,
{
    if n == 0 {
        proof { lemma_sqrt_floor_unique(0, 0); }
        return 0;
    }
    let mut lo: u64 = 0;
    let mut hi: u64 = 3_000_000_000;
    assert((3_000_000_000 as int) * (3_000_000_000 as int) == 9_000_000_000_000_000_000);
    while lo + 1 < hi
        invariant
            (lo as int) * (lo as int) <= n as int,
            (n as int) < (hi as int) * (hi as int),
            lo < hi,
            hi <= 3_000_000_000,
        decreases hi - lo,
    {
        let mid = lo + (hi - lo) / 2;
        assert(lo < mid < hi);
        proof {
            assert((mid as int) * (mid as int) <= 9_000_000_000_000_000_000) by (nonlinear_arith)
                requires 0 <= mid <= 3_000_000_000;
        }
        if mid * mid <= n {
            lo = mid;
        } else {
            hi = mid;
        }
    }
    proof {
        lemma_sqrt_floor_unique(n as int, lo as int);
    }
    lo
}

/// Truncating signed division of a by b.
pub fn div_trunc(a: i64, b: i64) -> (r: i64)
    requires
        1 <= b,
        -4_000_000_000_000_000_000 <= a <= 4_000_000_000_000_000_000,
    ensures
        r == sdiv(a as int, b as int),
{
    if a >= 0 {
        let q = (a as u64) / (b as u64);
        proof {
            assert(a as int / b as int <= a as int / 1) by {
                vstd::arithmetic::div_mod::lemma_div_is_ordered_by_denominator(a as int, 1, b as int);
            }
        }
        q as i64
    } else {
        let neg = -a;
        let q = (neg as u64) / (b as u64);
        proof {
            assert(neg as int / b as int <= neg as int / 1) by {
                vstd::arithmetic::div_mod::lemma_div_is_ordered_by_denominator(neg as int, 1, b as int);
            }
            lemma_div_pos_is_pos(neg as int, b as int);
        }
        -(q as i64)
    }
}

/// The Euclidean norm of v, rounded down to a whole fixed-point step.
pub fn magnitude(v: Vec2) -> (r: i64)
    requires
        v.bounded(),
    ensures
        r == sqrt_floor(mag_sq(v)),
        0 <= r <= 3_000_000_000,
{
    proof {
        assert(0 <= v.x * v.x <= 4_410_000_000_000_000_000) by (nonlinear_arith)
            requires -2_100_000_000 <= v.x <= 2_100_000_000;
        assert(0 <= v.y * v.y <= 4_410_000_000_000_000_000) by (nonlinear_arith)
            requires -2_100_000_000 <= v.y <= 2_100_000_000;
    }
    let xx = v.x * v.x;
    let yy = v.y * v.y;
    let n = (xx + yy) as u64;
    isqrt(n) as i64
}

/// The x component of the unit vector along (dx, dy), scaled by SCALE.
pub open spec fn norm_x2(dx: int, dy: int) -> int {
    sdiv(dx * (SCALE as int), sqrt_floor(mag_sq2(dx, dy)))
}

/// The y component of the unit vector along (dx, dy), scaled by SCALE.
pub open spec fn norm_y2(dx: int, dy: int) -> int {
    sdiv(dy * (SCALE as int), sqrt_floor(mag_sq2(dx, dy)))
}

/// The x component of the unit vector along v, scaled by SCALE.
pub open spec fn norm_x(v: Vec2) -> int {
    norm_x2(v.x as int, v.y as int)
}

/// The y component of the unit vector along v, scaled by SCALE.
pub open spec fn norm_y(v: Vec2) -> int {
    norm_y2(v.x as int, v.y as int)
}

/// Microseconds in one second, the denominator of every timestep.
pub const MICROS_PER_SEC: i64 = 1_000_000;

/// Largest coordinate magnitude a position or destination may reach.
pub const LOC_BOUND: i64 = 1_050_000_000;

/// A coordinate small enough for the kinematics helpers.
pub open spec fn coord_ok(c: int) -> bool {
    -LOC_BOUND <= c <= LOC_BOUND
}

/// A position vector small enough for the kinematics helpers.
pub open spec fn vec_ok(v: Vec2) -> bool {
    coord_ok(v.x as int) && coord_ok(v.y as int)
}

/// A point inside the closed arena rectangle.
pub open spec fn in_arena(v: Vec2, width: int, height: int) -> bool {
    0 <= v.x <= width && 0 <= v.y <= height
}

/// A coordinate clamped into the closed interval from 0 to hi.
pub open spec fn clamp(c: int, hi: int) -> int {
    if c < 0 {
        0
    } else if c > hi {
        hi
    } else {
        c
    }
}

/// The velocity component gained by steering from a point toward a
/// point offset by (dx, dy) at the given speed: the unit direction
/// scaled back from SCALE, or zero when there is no direction.
pub open spec fn step_vel_x(dx: int, dy: int, speed: int) -> int {
    if dx == 0 && dy == 0 {
        0
    } else {
        sdiv(norm_x2(dx, dy) * speed, SCALE as int)
    }
}

/// The y counterpart of step_vel_x.
pub open spec fn step_vel_y(dx: int, dy: int, speed: int) -> int {
    if dx == 0 && dy == 0 {
        0
    } else {
        sdiv(norm_y2(dx, dy) * speed, SCALE as int)
    }
}

/// Where a coordinate lands after one velocity step over dt microseconds.
pub open spec fn moved(c: int, vel: int, dt_micros: int) -> int {
    c + sdiv(vel * dt_micros, MICROS_PER_SEC as int)
}

/// Truncating division shrinks the magnitude of the dividend.
pub proof fn lemma_sdiv_abs_le(a: int, b: int)
    requires
        1 <= b,
    ensures
        a >= 0 ==> 0 <= sdiv(a, b) <= a,
        a < 0 ==> a <= sdiv(a, b) <= 0,
{
    if a >= 0 {
        lemma_div_pos_is_pos(a, b);
        vstd::arithmetic::div_mod::lemma_div_is_ordered_by_denominator(a, 1, b);
        vstd::arithmetic::div_mod::lemma_div_basics(1);
        assert(a / 1 == a) by {
            vstd::arithmetic::div_mod::lemma_div_basics(a);
        }
    } else {
        let n = -a;
        lemma_div_pos_is_pos(n, b);
        vstd::arithmetic::div_mod::lemma_div_is_ordered_by_denominator(n, 1, b);
        assert(n / 1 == n) by {
            vstd::arithmetic::div_mod::lemma_div_basics(n);
        }
    }
}

/// A truncating quotient of s * a by m stays within the bound on s when
/// a is at most m.
pub proof fn lemma_sdiv_mul_bound(a: int, s: int, m: int, sb: int)
    requires
        1 <= m,
        0 <= a <= m,
        0 <= sb,
        -sb <= s <= sb,
    ensures
        -sb <= sdiv(s * a, m) <= sb,
{
    if s >= 0 {
        assert(0 <= s * a <= m * sb) by (nonlinear_arith)
            requires 0 <= a <= m, 0 <= s <= sb;
        assert(m * sb == sb * m) by (nonlinear_arith);
        lemma_div_is_ordered(s * a, sb * m, m);
        assert((sb * m) / m == sb) by {
            vstd::arithmetic::div_mod::lemma_div_multiples_vanish(sb, m);
            assert(m * sb == sb * m) by (nonlinear_arith);
        }
        lemma_div_pos_is_pos(s * a, m);
    } else {
        let t = -s;
        assert(-(s * a) == t * a) by (nonlinear_arith)
            requires t == -s;
        assert(0 <= t * a <= m * sb) by (nonlinear_arith)
            requires 0 <= a <= m, 0 <= t <= sb;
        lemma_div_is_ordered(t * a, sb * m, m);
        assert((sb * m) / m == sb) by {
            vstd::arithmetic::div_mod::lemma_div_multiples_vanish(sb, m);
            assert(m * sb == sb * m) by (nonlinear_arith);
        }
        lemma_div_pos_is_pos(t * a, m);
        assert(m * sb == sb * m) by (nonlinear_arith);
    }
}

/// A scaled truncating quotient stays within the scale when the
/// numerator's coordinate is at most the divisor.
pub proof fn lemma_sdiv_scaled_bound(a: int, m: int, s: int)
    requires
        1 <= m,
        1 <= s,
        -m <= a <= m,
    ensures
        -s <= sdiv(a * s, m) <= s,
        a >= 0 ==> sdiv(a * s, m) >= 0,
        a <= 0 ==> sdiv(a * s, m) <= 0,
{
    if a >= 0 {
        assert(a * s <= m * s) by (nonlinear_arith)
            requires 0 <= a <= m, 1 <= s;
        lemma_div_is_ordered(a * s, m * s, m);
        assert((m * s) / m == s) by {
            vstd::arithmetic::div_mod::lemma_div_multiples_vanish(s, m);
        }
        lemma_div_pos_is_pos(a * s, m);
        assert(a * s >= 0) by (nonlinear_arith)
            requires a >= 0, s >= 0;
    } else {
        let b = -a;
        assert(b * s <= m * s) by (nonlinear_arith)
            requires 0 <= b <= m, 1 <= s;
        lemma_div_is_ordered(b * s, m * s, m);
        assert((m * s) / m == s) by {
            vstd::arithmetic::div_mod::lemma_div_multiples_vanish(s, m);
        }
        lemma_div_pos_is_pos(b * s, m);
        assert(b * s >= 0) by (nonlinear_arith)
            requires b >= 0, s >= 0;
        assert(-(a * s) == b * s) by (nonlinear_arith)
            requires b == -a;
    }
}

/// The normalized components lie within one SCALE of zero.
pub proof fn lemma_norm_bounded(v: Vec2)
    requires
        v.bounded(),
        !(v.x == 0 && v.y == 0),
    ensures
        1 <= sqrt_floor(mag_sq(v)),
        -(SCALE as int) <= norm_x(v) <= SCALE as int,
        -(SCALE as int) <= norm_y(v) <= SCALE as int,
        v.x >= 0 ==> norm_x(v) >= 0,
        v.x <= 0 ==> norm_x(v) <= 0,
        v.y >= 0 ==> norm_y(v) >= 0,
        v.y <= 0 ==> norm_y(v) <= 0,
{
    let m = sqrt_floor(mag_sq(v));
    assert(v.x * v.x >= 0 && v.y * v.y >= 0) by (nonlinear_arith);
    let ax = if v.x >= 0 { v.x as int } else { -(v.x as int) };
    let ay = if v.y >= 0 { v.y as int } else { -(v.y as int) };
    assert(ax * ax == v.x * v.x) by (nonlinear_arith)
        requires ax == v.x || ax == -(v.x as int);
    assert(ay * ay == v.y * v.y) by (nonlinear_arith)
        requires ay == v.y || ay == -(v.y as int);
    assert(ax * ax <= mag_sq(v) && ay * ay <= mag_sq(v));
    lemma_sqrt_floor_at_least(mag_sq(v), ax);
    lemma_sqrt_floor_at_least(mag_sq(v), ay);
    if ax >= 1 {
        lemma_sqrt_floor_at_least(mag_sq(v), 1);
    } else {
        assert(ay >= 1);
        lemma_sqrt_floor_at_least(mag_sq(v), 1);
    }
    lemma_sdiv_scaled_bound(v.x as int, m, SCALE as int);
    lemma_sdiv_scaled_bound(v.y as int, m, SCALE as int);
}

/// The remainder that truncating division leaves: within one divisor
/// of zero, on the dividend's side.
pub proof fn lemma_sdiv_rem(a: int, b: int)
    requires
        1 <= b,
    ensures
        a >= 0 ==> 0 <= a - b * sdiv(a, b) < b,
        a < 0 ==> -b < a - b * sdiv(a, b) <= 0,
{
    if a >= 0 {
        vstd::arithmetic::div_mod::lemma_fundamental_div_mod(a, b);
        vstd::arithmetic::div_mod::lemma_mod_bound(a, b);
    } else {
        let n = -a;
        vstd::arithmetic::div_mod::lemma_fundamental_div_mod(n, b);
        vstd::arithmetic::div_mod::lemma_mod_bound(n, b);
        assert(a - b * sdiv(a, b) == -(n % b)) by (nonlinear_arith)
            requires
                n == b * (n / b) + (n % b),
                a == -n,
                sdiv(a, b) == -(n / b);
    }
}

/// The normalization of v is parallel to v: the cross product of the
/// two is smaller in magnitude than the sum of the coordinate
/// magnitudes, which vanishes against the components' scale of SCALE.
pub proof fn lemma_norm_parallel(v: Vec2)
    requires
        v.bounded(),
        !(v.x == 0 && v.y == 0),
    ensures
        ({
            let ax = if v.x >= 0 { v.x as int } else { -(v.x as int) };
            let ay = if v.y >= 0 { v.y as int } else { -(v.y as int) };
            -(ax + ay) <= v.x * norm_y(v) - v.y * norm_x(v) <= ax + ay
        }),
{
    let x = v.x as int;
    let y = v.y as int;
    let s = SCALE as int;
    lemma_norm_bounded(v);
    let m = sqrt_floor(mag_sq(v));
    let ux = norm_x(v);
    let uy = norm_y(v);
    let rx = x * s - m * ux;
    let ry = y * s - m * uy;
    lemma_sdiv_rem(x * s, m);
    lemma_sdiv_rem(y * s, m);
    assert(x >= 0 ==> x * s >= 0) by (nonlinear_arith)
        requires s > 0;
    assert(x < 0 ==> x * s < 0) by (nonlinear_arith)
        requires s > 0;
    assert(y >= 0 ==> y * s >= 0) by (nonlinear_arith)
        requires s > 0;
    assert(y < 0 ==> y * s < 0) by (nonlinear_arith)
        requires s > 0;
    assert(-m < rx < m);
    assert(-m < ry < m);
    let ax = if x >= 0 { x } else { -x };
    let ay = if y >= 0 { y } else { -y };
    let cross = x * uy - y * ux;
    assert(m * cross == y * rx - x * ry) by (nonlinear_arith)
        requires
            rx == x * s - m * ux,
            ry == y * s - m * uy,
            cross == x * uy - y * ux;
    assert(-(ax + ay) * m <= y * rx - x * ry <= (ax + ay) * m) by (nonlinear_arith)
        requires
            -m < rx < m,
            -m < ry < m,
            m >= 1,
            ax == (if x >= 0 { x } else { -x }),
            ay == (if y >= 0 { y } else { -y });
    assert(-(ax + ay) <= cross <= ax + ay) by (nonlinear_arith)
        requires
            m * cross >= -(ax + ay) * m,
            m * cross <= (ax + ay) * m,
            m >= 1;
}

/// The normalization of v never exceeds the unit length: scaled by the
/// magnitude of v, its squared magnitude stays below the squared
/// magnitude of v scaled by SCALE; and on any v at least one unit long
/// the normalized magnitude is at most SCALE itself.
pub proof fn lemma_norm_magnitude(v: Vec2)
    requires
        v.bounded(),
        !(v.x == 0 && v.y == 0),
    ensures
        ({
            let m = sqrt_floor(mag_sq(v));
            let nsq = norm_x(v) * norm_x(v) + norm_y(v) * norm_y(v);
            &&& m * m * nsq <= (SCALE as int) * (SCALE as int) * mag_sq(v)
            &&& m >= SCALE ==> sqrt_floor(nsq) <= SCALE
        }),
{
    let x = v.x as int;
    let y = v.y as int;
    let s = SCALE as int;
    lemma_norm_bounded(v);
    let m = sqrt_floor(mag_sq(v));
    let ux = norm_x(v);
    let uy = norm_y(v);
    lemma_sdiv_rem(x * s, m);
    lemma_sdiv_rem(y * s, m);
    assert(x >= 0 ==> x * s >= 0) by (nonlinear_arith)
        requires s > 0;
    assert(x < 0 ==> x * s < 0) by (nonlinear_arith)
        requires s > 0;
    assert(y >= 0 ==> y * s >= 0) by (nonlinear_arith)
        requires s > 0;
    assert(y < 0 ==> y * s < 0) by (nonlinear_arith)
        requires s > 0;
    // The scaled component sits between zero and the scaled coordinate,
    // so its square is at most the coordinate's square.
    assert((m * ux) * (m * ux) <= (x * s) * (x * s)) by (nonlinear_arith)
        requires
            m >= 1,
            x >= 0 ==> (ux >= 0 && 0 <= x * s - m * ux),
            x < 0 ==> (ux <= 0 && x * s - m * ux <= 0);
    assert((m * uy) * (m * uy) <= (y * s) * (y * s)) by (nonlinear_arith)
        requires
            m >= 1,
            y >= 0 ==> (uy >= 0 && 0 <= y * s - m * uy),
            y < 0 ==> (uy <= 0 && y * s - m * uy <= 0);
    let nsq = ux * ux + uy * uy;
    assert((m * ux) * (m * ux) == m * m * (ux * ux)) by (nonlinear_arith);
    assert((m * uy) * (m * uy) == m * m * (uy * uy)) by (nonlinear_arith);
    assert((x * s) * (x * s) == s * s * (x * x)) by (nonlinear_arith);
    assert((y * s) * (y * s) == s * s * (y * y)) by (nonlinear_arith);
    assert(m * m * nsq == m * m * (ux * ux) + m * m * (uy * uy)) by (nonlinear_arith)
        requires nsq == ux * ux + uy * uy;
    assert(s * s * mag_sq(v) == s * s * (x * x) + s * s * (y * y)) by (nonlinear_arith)
        requires mag_sq(v) == x * x + y * y;
    assert(m * m * nsq <= s * s * mag_sq(v));
    assert(nsq >= 0) by (nonlinear_arith)
        requires nsq == ux * ux + uy * uy;
    if m >= s {
        lemma_sqrt_floor(mag_sq(v));
        // mag_sq(v) < (m + 1)^2 and s * (m + 1) <= m * (s + 1), so the
        // squared normalized magnitude stays below (s + 1)^2.
        assert(nsq < (s + 1) * (s + 1)) by (nonlinear_arith)
            requires
                m * m * nsq <= s * s * mag_sq(v),
                mag_sq(v) < (m + 1) * (m + 1),
                s <= m,
                1 <= s,
                nsq >= 0;
        lemma_sqrt_floor(nsq);
        let r = sqrt_floor(nsq);
        if r > s {
            assert((s + 1) * (s + 1) <= r * r) by (nonlinear_arith)
                requires 0 <= s + 1 <= r;
            assert(false);
        }
    }
}

/// The direction of v as a unit vector scaled by SCALE, or None when v
/// is the zero vector (the one vector with magnitude zero).
pub fn normalize(v: Vec2) -> (r: Option<Vec2>)
    requires
        v.bounded(),
    ensures
        (r is None) <==> sqrt_floor(mag_sq(v)) == 0,
        (r is None) <==> (v.x == 0 && v.y == 0),
        r matches Some(u) ==> u.x == norm_x(v) && u.y == norm_y(v),
        r matches Some(u) ==> -SCALE <= u.x <= SCALE && -SCALE <= u.y <= SCALE,
{
    let m = magnitude(v);
    proof {
        assert(v.x * v.x >= 0 && v.y * v.y >= 0) by (nonlinear_arith);
        if v.x == 0 && v.y == 0 {
            assert(mag_sq(v) == 0) by (nonlinear_arith)
                requires v.x == 0, v.y == 0;
            assert(sqrt_floor(0) == 0);
        } else {
            lemma_norm_bounded(v);
        }
    }
    if m > 0 {
        let ux = div_trunc(v.x * SCALE, m);
        let uy = div_trunc(v.y * SCALE, m);
        Some(Vec2 { x: ux, y: uy })
    } else {
        None
    }
}

} // verus!

use vstd::prelude::*;
use crate::color::{
    color_blue, color_green, color_red, color_white, lemma_palette_selectors, ConfigError,
};
use crate::math::{clamp, in_arena, sdiv, Vec2, MAX_DIM};
use crate::projectile::{
    proj_step, Projectile, LAUNCH_SPEED, PROJECTILE_SIZE, RESTING_COORD,
};
use crate::rng::SimRng;
use crate::walker::{
    freshly_fired, rw_delta_x, rw_delta_y, step_loc_x, step_loc_y, Walker, DRAW_RANGE,
    WALKER_RADIUS, WALKER_SPEED,
};

verus! {

/// The fixed simulation timestep, in microseconds: one sixtieth of a
/// second, rounded to a whole microsecond.
pub const TICK_MICROS: u64 = 16_667;

/// Which of the two toy animations the state runs.
#[derive(Clone, Copy, PartialEq, Eq, Structural, Debug)]
pub enum SimMode {
    Seek,
    RandomWalk,
}

/// How one seek-variant pass relates a walker to its successor: the
/// walker's own update at the fixed tick (fire the resting projectile,
/// re-pick the destination only on arrival, take the exact steering
/// step), the clamp onto the arena, and one step of the owned
/// projectile.
pub open spec fn seek_pass(pre: Walker, post: Walker, width: int, height: int) -> bool {
    let dt = TICK_MICROS as int;
    &&& post.radius == pre.radius
    &&& post.color == pre.color
    &&& post.speed == pre.speed
    &&& post.velocity == pre.velocity
    &&& in_arena(post.destination, width, height)
    &&& (!pre.at_destination() ==> post.destination == pre.destination)
    &&& (pre.at_destination() ==> 0 <= post.destination.x < width && 0 <= post.destination.y
        < height)
    &&& post.location.x == clamp(
        step_loc_x(pre.location, post.destination, pre.speed as int, dt),
        width,
    )
    &&& post.location.y == clamp(
        step_loc_y(pre.location, post.destination, pre.speed as int, dt),
        height,
    )
    &&& (pre.projectile is None ==> post.projectile is None)
    &&& (pre.projectile matches Some(p) ==> (p.is_fired ==> (post.projectile matches Some(q)
        && proj_step(p, q, dt, width, height))))
    &&& (pre.projectile matches Some(p) ==> (!p.is_fired ==> (post.projectile matches Some(q)
        && exists|f: Projectile|
            #[trigger] freshly_fired(p, pre.location, f, width, height) && proj_step(
                f,
                q,
                dt,
                width,
                height,
            ))))
}

/// How one random-walk pass relates a walker to its successor: one
/// unit stride picked by a draw's quartile, clamped onto the arena.
pub open spec fn rw_pass(pre: Walker, post: Walker, width: int, height: int) -> bool {
    &&& exists|draw: u64|
        draw < DRAW_RANGE && post.location.x == clamp(
            pre.location.x + #[trigger] rw_delta_x(draw),
            width,
        ) && post.location.y == clamp(pre.location.y + rw_delta_y(draw), height)
    &&& post.radius == pre.radius
    &&& post.color == pre.color
    &&& post.destination == pre.destination
    &&& post.velocity == pre.velocity
    &&& post.speed == pre.speed
    &&& post.projectile == pre.projectile
}

/// How one full update pass relates the walker vector to its successor:
/// walker by walker, by the pass of the running mode.
pub open spec fn pass_rel(pre: Seq<Walker>, post: Seq<Walker>, mode: SimMode, width: int, height: int) -> bool {
    &&& post.len() == pre.len()
    &&& (mode == SimMode::Seek ==> forall|i: int|
        0 <= i < pre.len() ==> #[trigger] seek_pass(pre[i], post[i], width, height))
    &&& (mode == SimMode::RandomWalk ==> forall|i: int|
        0 <= i < pre.len() ==> #[trigger] rw_pass(pre[i], post[i], width, height))
}

/// Consecutive entries of a history of walker vectors are one full
/// update pass apart.
pub open spec fn pass_chain(hist: Seq<Seq<Walker>>, mode: SimMode, width: int, height: int) -> bool {
    forall|i: int|
        0 <= i < hist.len() - 1 ==> pass_rel(#[trigger] hist[i], hist[i + 1], mode, width, height)
}

/// Whether post is reached from pre by exactly n full update passes:
/// some history of n + 1 walker vectors starts at pre, ends at post,
/// and advances by one pass from each entry to the next.
pub open spec fn passes_rel(pre: Seq<Walker>, post: Seq<Walker>, n: int, mode: SimMode, width: int, height: int) -> bool {
    exists|hist: Seq<Seq<Walker>>|
        #[trigger] pass_chain(hist, mode, width, height) && hist.len() == n + 1 && hist[0] == pre
            && hist[n] == post
}

/// A history of one entry witnesses zero passes.
proof fn lemma_passes_rel_zero(pre: Seq<Walker>, mode: SimMode, width: int, height: int)
    ensures
        passes_rel(pre, pre, 0, mode, width, height),
{
    let hist = seq![pre];
    assert(pass_chain(hist, mode, width, height));
    assert(hist[0] == pre);
}

/// One more pass extends a chain of passes by one.
proof fn lemma_passes_rel_step(
    pre: Seq<Walker>,
    mid: Seq<Walker>,
    post: Seq<Walker>,
    n: int,
    mode: SimMode,
    width: int,
    height: int,
)
    requires
        n >= 0,
        passes_rel(pre, mid, n, mode, width, height),
        pass_rel(mid, post, mode, width, height),
    ensures
        passes_rel(pre, post, n + 1, mode, width, height),
{
    let hist0 = choose|hist: Seq<Seq<Walker>>|
        #[trigger] pass_chain(hist, mode, width, height) && hist.len() == n + 1 && hist[0] == pre
            && hist[n] == mid;
    let hist1 = hist0.push(post);
    assert(pass_chain(hist1, mode, width, height)) by {
        assert forall|i: int| 0 <= i < hist1.len() - 1 implies pass_rel(
            #[trigger] hist1[i],
            hist1[i + 1],
            mode,
            width,
            height,
        ) by {
            if i < n {
                assert(hist1[i] == hist0[i]);
                assert(hist1[i + 1] == hist0[i + 1]);
            } else {
                assert(hist1[i] == hist0[n]);
                assert(hist1[i + 1] == post);
            }
        }
    }
    assert(hist1.len() == (n + 1) + 1);
    assert(hist1[0] == pre);
    assert(hist1[n + 1] == post);
}

/// The whole simulation: the walkers, the arena, the elapsed-time
/// accumulator of the fixed-timestep loop, and the injected random
/// source.
pub struct SimulationState {
    pub walkers: Vec<Walker>,
    pub width: i64,
    pub height: i64,
    pub accumulator: u64,
    pub mode: SimMode,
    pub rng: SimRng,
}

impl SimulationState {
    /// The state is well formed when the arena is moderate, less than
    /// one tick is pending, and every walker is well formed for the
    /// arena.
    pub open spec fn wf(self) -> bool {
        &&& 1 <= self.width <= MAX_DIM
        &&& 1 <= self.height <= MAX_DIM
        &&& self.accumulator < TICK_MICROS
        &&& forall|i: int|
            0 <= i < self.walkers@.len() ==> (#[trigger] self.walkers@[i]).wf(
                self.width as int,
                self.height as int,
            )
    }

    /// The seek-variant state: one walker at the arena center, at the
    /// seek speed and radius, with its destination on itself and a
    /// resting projectile.
    pub fn new(width: i64, height: i64, rng: SimRng) -> (r: SimulationState)
        requires
            1 <= width <= MAX_DIM,
            1 <= height <= MAX_DIM,
        ensures
            r.wf(),
            r.width == width,
            r.height == height,
            r.walkers@.len() == 1,
            r.walkers@[0].location.x == sdiv(width as int, 2),
            r.walkers@[0].location.y == sdiv(height as int, 2),
            r.walkers@[0].destination == r.walkers@[0].location,
            r.walkers@[0].velocity == (Vec2 { x: 0, y: 0 }),
            r.walkers@[0].speed == WALKER_SPEED,
            r.walkers@[0].radius == WALKER_RADIUS,
            r.walkers@[0].color.a == 255,
            r.walkers@[0].projectile matches Some(p) && {
                &&& !p.is_fired
                &&& p.location == (Vec2 { x: RESTING_COORD, y: RESTING_COORD })
                &&& p.velocity == (Vec2 { x: LAUNCH_SPEED, y: 0 })
                &&& p.size == PROJECTILE_SIZE
                &&& p.color == color_white()
            },
            r.accumulator == 0,
            r.mode == SimMode::Seek,
    {
        let mut rng = rng;
        let mut walkers: Vec<Walker> = Vec::new();
        let w = Walker::new(width, height, &mut rng);
        walkers.push(w);
        SimulationState { walkers, width, height, accumulator: 0, mode: SimMode::Seek, rng }
    }

    /// The random-walk-variant state: three walkers with the preset
    /// palette colors red, green and blue, each at a random point with
    /// its destination on itself and no projectile. The palette holds
    /// all three selectors, so construction succeeds.
    pub fn new_random_walk(width: i64, height: i64, rng: SimRng) -> (r:
        Result<SimulationState, ConfigError>)
        requires
            1 <= width <= MAX_DIM,
            1 <= height <= MAX_DIM,
        ensures
            r is Ok,
            r matches Ok(s) ==> {
                &&& s.wf()
                &&& s.width == width
                &&& s.height == height
                &&& s.walkers@.len() == 3
                &&& s.accumulator == 0
                &&& s.mode == SimMode::RandomWalk
                &&& s.walkers@[0].color == color_red()
                &&& s.walkers@[1].color == color_green()
                &&& s.walkers@[2].color == color_blue()
                &&& forall|i: int|
                    0 <= i < 3 ==> {
                        let w = #[trigger] s.walkers@[i];
                        &&& 0 <= w.location.x < width && 0 <= w.location.y < height
                        &&& w.destination == w.location
                        &&& w.velocity == (Vec2 { x: 0, y: 0 })
                        &&& w.speed == WALKER_SPEED
                        &&& w.radius == WALKER_RADIUS
                        &&& w.projectile is None
                    }
            },
    {
        proof {
            lemma_palette_selectors();
        }
        let mut rng = rng;
        let mut walkers: Vec<Walker> = Vec::new();
        let red = Walker::new_random_walk(width, height, "red", &mut rng)?;
        let green = Walker::new_random_walk(width, height, "green", &mut rng)?;
        let blue = Walker::new_random_walk(width, height, "blue", &mut rng)?;
        walkers.push(red);
        walkers.push(green);
        walkers.push(blue);
        Ok(
            SimulationState {
                walkers,
                width,
                height,
                accumulator: 0,
                mode: SimMode::RandomWalk,
                rng,
            },
        )
    }

    /// One full update pass over every walker, and over the projectile
    /// each walker owns, at the fixed timestep.
    fn advance_walkers(&mut self)
        requires
            1 <= old(self).width <= MAX_DIM,
            1 <= old(self).height <= MAX_DIM,
            forall|i: int|
                0 <= i < old(self).walkers@.len() ==> (#[trigger] old(self).walkers@[i]).wf(
                    old(self).width as int,
                    old(self).height as int,
                ),
        ensures
            final(self).width == old(self).width,
            final(self).height == old(self).height,
            final(self).mode == old(self).mode,
            final(self).accumulator == old(self).accumulator,
            final(self).walkers@.len() == old(self).walkers@.len(),
            forall|i: int|
                0 <= i < final(self).walkers@.len() ==> (#[trigger] final(self).walkers@[i]).wf(
                    final(self).width as int,
                    final(self).height as int,
                ),
            pass_rel(
                old(self).walkers@,
                final(self).walkers@,
                old(self).mode,
                old(self).width as int,
                old(self).height as int,
            ),
    {
        let n = self.walkers.len();
        let mut i: usize = 0;
        while i < n
            invariant
                i <= n,
                n == self.walkers@.len(),
                self.width == old(self).width,
                self.height == old(self).height,
                self.mode == old(self).mode,
                self.accumulator == old(self).accumulator,
                1 <= self.width <= MAX_DIM,
                1 <= self.height <= MAX_DIM,
                forall|j: int|
                    0 <= j < n ==> (#[trigger] self.walkers@[j]).wf(
                        self.width as int,
                        self.height as int,
                    ),
                forall|j: int| i <= j < n ==> self.walkers@[j] == old(self).walkers@[j],
                self.mode == SimMode::Seek ==> forall|j: int|
                    0 <= j < i ==> #[trigger] seek_pass(
                        old(self).walkers@[j],
                        self.walkers@[j],
                        self.width as int,
                        self.height as int,
                    ),
                self.mode == SimMode::RandomWalk ==> forall|j: int|
                    0 <= j < i ==> #[trigger] rw_pass(
                        old(self).walkers@[j],
                        self.walkers@[j],
                        self.width as int,
                        self.height as int,
                    ),
            decreases n - i,
        {
            let mut w = self.walkers[i];
            let ghost pre_w = w;
            match self.mode {
                SimMode::Seek => {
                    w.update(self.width, self.height, TICK_MICROS, &mut self.rng);
                    w.keep_in_arena(self.width, self.height);
                    if w.projectile.is_some() {
                        let mut p = w.projectile.unwrap();
                        let ghost p_mid = p;
                        p.update(TICK_MICROS, self.width, self.height);
                        w.projectile = Some(p);
                        proof {
                            match pre_w.projectile {
                                Some(pp) => {
                                    if !pp.is_fired {
                                        assert(freshly_fired(
                                            pp,
                                            pre_w.location,
                                            p_mid,
                                            self.width as int,
                                            self.height as int,
                                        ));
                                        assert(proj_step(
                                            p_mid,
                                            p,
                                            TICK_MICROS as int,
                                            self.width as int,
                                            self.height as int,
                                        ));
                                    }
                                },
                                None => {},
                            }
                        }
                    }
                    assert(seek_pass(pre_w, w, self.width as int, self.height as int));
                },
                SimMode::RandomWalk => {
                    w.random_step(&mut self.rng);
                    let ghost mid = w;
                    w.keep_in_arena(self.width, self.height);
                    proof {
                        let draw = choose|draw: u64|
                            draw < DRAW_RANGE && mid.location.x == pre_w.location.x
                                + #[trigger] rw_delta_x(draw) && mid.location.y
                                == pre_w.location.y + rw_delta_y(draw);
                        assert(w.location.x == clamp(
                            pre_w.location.x + rw_delta_x(draw),
                            self.width as int,
                        ));
                        assert(w.location.y == clamp(
                            pre_w.location.y + rw_delta_y(draw),
                            self.height as int,
                        ));
                        assert(rw_pass(pre_w, w, self.width as int, self.height as int));
                    }
                },
            }
            assert(w.wf(self.width as int, self.height as int));
            self.walkers[i] = w;
            i += 1;
        }
    }


    /// Accumulates real elapsed time and, for each whole tick pending,
    /// performs exactly one full update pass over all walkers, so the
    /// physics step size never depends on the frame rate: the walkers
    /// end exactly floor(pending / tick) passes from where they began,
    /// and the remainder stays accumulated. Less than one tick of
    /// pending time leaves the walkers untouched.
    pub fn tick(&mut self, elapsed_micros: u64)
        requires
            old(self).wf(),
            elapsed_micros <= 1_000_000_000_000,
        ensures
            final(self).wf(),
            final(self).width == old(self).width,
            final(self).height == old(self).height,
            final(self).mode == old(self).mode,
            final(self).walkers@.len() == old(self).walkers@.len(),
            final(self).accumulator == (old(self).accumulator + elapsed_micros) as int % (
            TICK_MICROS as int),
            passes_rel(
                old(self).walkers@,
                final(self).walkers@,
                (old(self).accumulator + elapsed_micros) as int / (TICK_MICROS as int),
                old(self).mode,
                old(self).width as int,
                old(self).height as int,
            ),
            old(self).accumulator + elapsed_micros < TICK_MICROS ==> final(self).walkers@ == old(
                self,
            ).walkers@,
    {
        let mut acc = self.accumulator + elapsed_micros;
        let ghost total = acc as int;
        let ghost mut passes: int = 0;
        proof {
            lemma_passes_rel_zero(
                self.walkers@,
                self.mode,
                self.width as int,
                self.height as int,
            );
        }
        while acc >= TICK_MICROS
            invariant
                self.width == old(self).width,
                self.height == old(self).height,
                self.mode == old(self).mode,
                self.walkers@.len() == old(self).walkers@.len(),
                1 <= self.width <= MAX_DIM,
                1 <= self.height <= MAX_DIM,
                forall|j: int|
                    0 <= j < self.walkers@.len() ==> (#[trigger] self.walkers@[j]).wf(
                        self.width as int,
                        self.height as int,
                    ),
                acc as int + passes * (TICK_MICROS as int) == total,
                passes >= 0,
                passes_rel(
                    old(self).walkers@,
                    self.walkers@,
                    passes,
                    old(self).mode,
                    old(self).width as int,
                    old(self).height as int,
                ),
                passes == 0 ==> self.walkers@ == old(self).walkers@,
            decreases acc,
        {
            acc = acc - TICK_MICROS;
            let ghost mid_walkers = self.walkers@;
            self.advance_walkers();
            proof {
                lemma_passes_rel_step(
                    old(self).walkers@,
                    mid_walkers,
                    self.walkers@,
                    passes,
                    old(self).mode,
                    old(self).width as int,
                    old(self).height as int,
                );
                passes = passes + 1;
            }
        }
        self.accumulator = acc;
        proof {
            vstd::arithmetic::div_mod::lemma_fundamental_div_mod_converse(
                total,
                TICK_MICROS as int,
                passes,
                acc as int,
            );
        }
    }
}

} // verus!

use vstd::prelude::*;
use rand::Rng;
use rand::SeedableRng;
use crate::math::{Vec2, MAX_DIM};

verus! {

#[verifier::external_type_specification]
#[verifier::external_body]
pub struct ExStdRng(rand::rngs::StdRng);

/// The pseudo-random source of the simulation. It is seedable and
/// injected into the constructors, so a caller controls the draws.
pub struct SimRng {
    rng: rand::rngs::StdRng,
}

impl SimRng {
    /// Relies on rand::SeedableRng::seed_from_u64: builds a generator
    /// deterministically from a 64-bit seed. Nothing is promised of
    /// the draws it will yield.
    #[verifier::external_body]
    pub fn from_seed(seed: u64) -> SimRng {
        SimRng { rng: rand::rngs::StdRng::seed_from_u64(seed) }
    }

    /// Relies on rand::Rng::gen_range over 0..bound: the draw lies
    /// below the bound, and the range is not empty, so the call does
    /// not panic.
    #[verifier::external_body]
    pub(crate) fn next_below(&mut self, bound: u64) -> (r: u64)
        requires
            1 <= bound,
        ensures
            r < bound,
    {
        self.rng.gen_range(0..bound)
    }

    /// A uniformly drawn coordinate in 0..limit.
    pub fn coord_below(&mut self, limit: i64) -> (r: i64)
        requires
            1 <= limit <= MAX_DIM,
        ensures
            0 <= r < limit,
    {
        let d = self.next_below(limit as u64);
        d as i64
    }

    /// A uniformly drawn point inside the half-open arena rectangle.
    pub fn point_in(&mut self, width: i64, height: i64) -> (r: Vec2)
        requires
            1 <= width <= MAX_DIM,
            1 <= height <= MAX_DIM,
        ensures
            0 <= r.x < width,
            0 <= r.y < height,
    {
        let x = self.coord_below(width);
        let y = self.coord_below(height);
        Vec2 { x, y }
    }

    /// A uniformly drawn color channel.
    pub fn channel(&mut self) -> (r: u8) {
        let d = self.next_below(256);
        d as u8
    }
}

} // verus!

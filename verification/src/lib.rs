//! A pair of tiny 2D toy simulations: a walker that steers toward random
//! destinations and fires projectiles (the seek variant), and walkers that
//! take unit steps in random directions (the random-walk variant), both
//! driven by a fixed-timestep loop and clamped to an arena rectangle.
//!
//! Coordinates are fixed point: one arena unit is SCALE fixed-point steps.

pub mod color;
pub mod math;
pub mod projectile;
pub mod rng;
pub mod sim;
pub mod walker;

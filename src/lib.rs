//! A fixed set of points that drift inside the unit square and bounce off
//! its edges.
//!
//! Coordinates are fixed-point integers: `UNIT` stands for 1.0, so a
//! coordinate lies in `0..=UNIT` and one unit is a millionth of the square's
//! side.
mod laws;
mod motion;
mod sampling;
mod simulator;

pub use motion::{bounce_axis, Particle, Point, Velocity, UNIT};
pub use sampling::{
    floor_sqrt, particle_from_samples, random_particle, signed_from_sample, unit_from_sample,
    velocity_from_direction, SPEED,
};
pub use simulator::{Simulator, POINT_COUNT};

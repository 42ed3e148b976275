//! Authoritative game-state core of a small multiplayer pack-herding game:
//! pack ownership arbitration, fixed-cadence snapshots, observer-side
//! interpolation and the match stage lifecycle.
//!
//! World positions are fixed-point integers in thousandths of a world unit,
//! angles are integers in microradians and times are integers in
//! microseconds or milliseconds, so that every rule can be stated and proved
//! exactly.

pub mod geometry;
pub mod interpolation;
pub mod counts;
mod rng;
pub mod minipack;
pub mod stage;
pub mod settings;
pub mod menu;
pub mod spawning;

//! A lattice Monte Carlo simulator: a toroidal grid of discrete cell states
//! evolves by single-cell Metropolis trials driven by a seeded deterministic
//! random stream, under a uniform oscillating or spatially varying
//! inverse-temperature (beta) field shaped by moving heat sources.
//!
//! All real-valued quantities (beta, coordinates, probabilities) are held in
//! fixed-point integer form so that every update is exact and reproducible.

pub mod field;
pub mod fixed;
pub mod lattice;
pub mod orbit;
pub mod outline;
pub mod rng;
pub mod schedule;
pub mod sim;

use vstd::prelude::*;

verus! {

/// Scale of the Q.16 fixed-point representation used for beta values and
/// plane coordinates: the integer `FP_ONE` stands for the real number 1.
pub const FP_ONE: u64 = 65536;

/// Scale of the Q.32 fixed-point representation used for probabilities and
/// for the unit trigonometric amplitudes.
pub const Q32_ONE: u64 = 0x1_0000_0000;

/// Largest magnitude of a plane coordinate in Q.16 fixed point.
pub const COORD_MAX_FP: i64 = 0x100_0000_0000;

/// A heat source: a point in the same continuous (Q.16 fixed-point)
/// coordinate plane as the lattice. A hotspot has no state beyond its
/// position.
pub struct Hotspot {
    pub x: i64,
    pub y: i64,
}

impl Hotspot {
    /// Coordinates within the accepted plane bounds.
    pub open spec fn wf(&self) -> bool {
        -COORD_MAX_FP <= self.x <= COORD_MAX_FP && -COORD_MAX_FP <= self.y <= COORD_MAX_FP
    }
}

} // verus!

//! Orbit determination: noise models, estimates and filter sequencing.

pub mod estimate;
pub mod filter;
pub mod noise;
pub mod process;
pub mod smoother;
pub mod trigger;

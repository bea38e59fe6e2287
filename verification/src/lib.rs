//! A particle simulation engine: a fixed-capacity particle pool integrated
//! under gravity with pairwise soft-body collision resolution, backed by a
//! generic dense row-major 2D container that serves both as the spatial
//! bucket grid and as the output color buffer.
//!
//! All world coordinates are fixed-point numbers: an `i64` counts units of
//! `1 / fixed::SCALE` world units, so one grid cell (one particle diameter)
//! spans `fixed::SCALE` ticks.

pub mod array2d;
pub mod color;
pub mod fixed;
pub mod laws;
pub mod physics;

//! Math utilities: volumetric grids and signed distance field shape kinds.

pub mod primqueue;
pub mod sdf;
pub mod volumetric;

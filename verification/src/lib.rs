//! Real-time solutions for 3D games: volumetric grids, triangle meshes and
//! mesh surface buffers, with their index arithmetic verified.

pub mod classes;
pub mod extension;
pub mod math;
pub mod mesh;
pub mod simulation;
pub mod utils;
pub mod vector;

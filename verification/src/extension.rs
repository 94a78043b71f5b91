//! The Godot-extension flavour of the toolkit: its triangle mesh, its volume grid with
//! 32-bit coordinates, and the surface arrays it hands to the engine.

pub mod godot;
pub mod sdf;
pub mod trimesh;
pub mod types;
pub mod volumetric;

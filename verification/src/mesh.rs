//! Mesh data: index topology, triangle strips and the triangle mesh container.

pub mod strip;
pub mod topology;
pub mod trimesh;

//! Triangle meshes for voxel volumes: per-cube face culling, face templates,
//! and assembly of many cube fragments into one chunk mesh.
//!
//! All geometry is exact integer data. Positions are stored in half units
//! (a cube spans -1..=1 around its centre), so that every vertex of a unit
//! cube at an integer grid cell has an integer coordinate.

pub mod geometry;
pub mod cube;
pub mod chunk;
pub mod exposure;

//! Colours, voxels and tiles.

pub mod color;
pub mod font;
pub mod tile;
pub mod voxel;

//! Recursive shadowcasting in three dimensions: which cells of a grid a light
//! or an eye reaches.

pub mod cast;
pub mod coverage;
pub mod fov;
pub mod laws;
pub mod light;
pub mod occlusion;
pub mod octant;
pub mod scan;
pub mod shape;
pub mod slope;
pub mod theorems;

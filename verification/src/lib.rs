//! Voxel dungeon engine: a recursive shadowcasting scan over a dense grid of
//! tiles, the integer geometry and colours it works with, and the layout
//! arithmetic of a tile-based user interface.

pub mod constants;
pub mod geometry;
pub mod rendering;
pub mod ui;
pub mod util;
pub mod world;
pub mod shadowcast;

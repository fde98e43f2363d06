//! Integer geometry: points, rectangles and lines of cells.

pub mod point;
pub mod rect;
pub mod util;

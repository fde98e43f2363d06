//! The world grid and queries on it.

pub mod grid;
pub mod util;

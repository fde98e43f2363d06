//! Sizes and ranges shared by the world and the lighting engine.

use vstd::prelude::*;

verus! {

/// Edge length of a world chunk, in tiles.
pub const CHUNK_SIZE: usize = 64;

/// How far a light source reaches, in tiles.
pub const LIGHT_RANGE: usize = 6;

/// How far the player sees, in tiles.
pub const PLAYER_SIGHT_RANGE: usize = 12;

} // verus!

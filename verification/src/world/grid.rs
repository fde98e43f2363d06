//! The dense three-dimensional grid of tiles.

use vstd::prelude::*;
use crate::geometry::point::GridCoord;
use crate::rendering::tile::Tile;

verus! {

/// A dense grid of tiles, indexed by `(x, y, z)`; the storage is an
/// `ndarray::Array3`.
#[verifier::external_body]
pub struct TileGrid {
    tiles: ndarray::Array3<Tile>,
}

/// The lengths of the three axes of a grid.
pub uninterp spec fn grid_dims(g: TileGrid) -> (nat, nat, nat);

/// The tile that a grid holds at each index inside its axes.
pub uninterp spec fn grid_tiles(g: TileGrid) -> Map<(int, int, int), Tile>;

/// What a grid is to the contracts: the lengths of its axes and its tiles.
pub struct GridView {
    pub width: nat,
    pub height: nat,
    pub depth: nat,
    pub tiles: Map<(int, int, int), Tile>,
}

impl GridView {
    /// Whether the index lies inside the axes.
    pub open spec fn contains(self, x: int, y: int, z: int) -> bool {
        0 <= x < self.width && 0 <= y < self.height && 0 <= z < self.depth
    }

    /// The tile at an index.
    pub open spec fn tile(self, x: int, y: int, z: int) -> Tile {
        self.tiles[(x, y, z)]
    }

    /// The same grid with one tile replaced.
    pub open spec fn with_tile(self, x: int, y: int, z: int, t: Tile) -> Self {
        GridView { tiles: self.tiles.insert((x, y, z), t), ..self }
    }
}

/// The number of elements of a block with the given axis lengths, an axis of
/// length zero counted as one.
pub open spec fn nonzero_volume(width: int, height: int, depth: int) -> int {
    (if width == 0 { 1 } else { width }) * (if height == 0 { 1 } else { height }) * (if depth == 0 {
        1
    } else {
        depth
    })
}

/// Whether a grid with the given axis lengths can be held in memory: neither
/// the number of its tiles nor the number of its bytes exceeds `isize::MAX`.
pub open spec fn addressable(width: int, height: int, depth: int) -> bool {
    &&& nonzero_volume(width, height, depth) <= isize::MAX
    &&& nonzero_volume(width, height, depth) * vstd::layout::size_of::<Tile>() <= isize::MAX
}

/// `ndarray::ArrayBase::from_elem` with a three-dimensional shape: an array
/// with the given axis lengths, every element a copy of `fill`. It panics
/// where the number of elements or of bytes exceeds `isize::MAX`, which the
/// caller rules out.
#[verifier::external_body]
fn array_from_elem(width: usize, height: usize, depth: usize, fill: Tile) -> (g: TileGrid)
    requires
        addressable(width as int, height as int, depth as int),
    ensures
        grid_dims(g) == (width as nat, height as nat, depth as nat),
        forall|x: int, y: int, z: int|
            0 <= x < width && 0 <= y < height && 0 <= z < depth ==> #[trigger] grid_tiles(g)[(
                x,
                y,
                z,
            )] == fill,
{
    TileGrid { tiles: ndarray::Array3::from_elem((width, height, depth), fill) }
}

/// `ndarray::ArrayBase::dim`: the lengths of the axes, in order.
#[verifier::external_body]
fn array_dim(g: &TileGrid) -> (d: (usize, usize, usize))
    ensures
        (d.0 as nat, d.1 as nat, d.2 as nat) == grid_dims(*g),
{
    g.tiles.dim()
}

/// Indexing an `ndarray` array by `[x, y, z]`: the element at that index.
/// The index must lie inside the axes.
#[verifier::external_body]
fn array_get(g: &TileGrid, x: usize, y: usize, z: usize) -> (t: Tile)
    requires
        x < grid_dims(*g).0,
        y < grid_dims(*g).1,
        z < grid_dims(*g).2,
    ensures
        t == grid_tiles(*g)[(x as int, y as int, z as int)],
{
    g.tiles[[x, y, z]]
}

/// Assigning through an `ndarray` index `[x, y, z]`: that element is replaced,
/// every other element and the axes stay as they were.
#[verifier::external_body]
fn array_set(g: &mut TileGrid, x: usize, y: usize, z: usize, t: Tile)
    requires
        x < grid_dims(*old(g)).0,
        y < grid_dims(*old(g)).1,
        z < grid_dims(*old(g)).2,
    ensures
        grid_dims(*final(g)) == grid_dims(*old(g)),
        grid_tiles(*final(g)) == grid_tiles(*old(g)).insert((x as int, y as int, z as int), t),
{
    g.tiles[[x, y, z]] = t;
}

impl View for TileGrid {
    type V = GridView;

    open spec fn view(&self) -> GridView {
        GridView {
            width: grid_dims(*self).0,
            height: grid_dims(*self).1,
            depth: grid_dims(*self).2,
            tiles: grid_tiles(*self),
        }
    }
}

impl TileGrid {
    /// A grid with the given axis lengths, every tile a copy of `fill`; `None`
    /// where a grid of that size cannot be addressed.
    pub fn new(width: usize, height: usize, depth: usize, fill: Tile) -> (r: Option<Self>)
        ensures
            r.is_some() <==> addressable(width as int, height as int, depth as int),
            r matches Some(g) ==> {
                &&& g@.width == width
                &&& g@.height == height
                &&& g@.depth == depth
                &&& forall|x: int, y: int, z: int|
                    g@.contains(x, y, z) ==> #[trigger] g@.tile(x, y, z) == fill
            },
    {
        let w: usize = if width == 0 { 1 } else { width };
        let h: usize = if height == 0 { 1 } else { height };
        let d: usize = if depth == 0 { 1 } else { depth };
        let bytes: usize = core::mem::size_of::<Tile>();
        let limit: usize = isize::MAX as usize;
        let ghost volume = nonzero_volume(width as int, height as int, depth as int);
        assert(volume == w * h * d);
        let wh = match w.checked_mul(h) {
            Some(v) => v,
            None => {
                assert(volume > limit) by (nonlinear_arith)
                    requires
                        volume == w * h * d,
                        w * h > usize::MAX,
                        d >= 1,
                        limit <= usize::MAX,
                ;
                return None;
            },
        };
        let whd = match wh.checked_mul(d) {
            Some(v) => v,
            None => {
                return None;
            },
        };
        if whd > limit {
            return None;
        }
        let total = match whd.checked_mul(bytes) {
            Some(v) => v,
            None => {
                return None;
            },
        };
        if total > limit {
            return None;
        }
        Some(array_from_elem(width, height, depth, fill))
    }

    /// The lengths of the three axes.
    pub fn dim(&self) -> (d: (usize, usize, usize))
        ensures
            d.0 == self@.width,
            d.1 == self@.height,
            d.2 == self@.depth,
    {
        array_dim(self)
    }

    /// The tile at `pos`, or `None` where `pos` lies outside the grid.
    pub fn get(&self, pos: GridCoord) -> (r: Option<Tile>)
        ensures
            r == if self@.contains(pos.x as int, pos.y as int, pos.z as int) {
                Some(self@.tile(pos.x as int, pos.y as int, pos.z as int))
            } else {
                None
            },
    {
        let (w, h, d) = array_dim(self);
        if pos.x < w && pos.y < h && pos.z < d {
            Some(array_get(self, pos.x, pos.y, pos.z))
        } else {
            None
        }
    }

    /// The tile at `pos`, which lies inside the grid.
    pub fn tile_at(&self, pos: GridCoord) -> (t: Tile)
        requires
            self@.contains(pos.x as int, pos.y as int, pos.z as int),
        ensures
            t == self@.tile(pos.x as int, pos.y as int, pos.z as int),
    {
        array_get(self, pos.x, pos.y, pos.z)
    }

    /// Replaces the tile at `pos`; returns whether `pos` lay inside the grid,
    /// and leaves the grid as it was where it did not.
    pub fn set(&mut self, pos: GridCoord, tile: Tile) -> (done: bool)
        ensures
            done == old(self)@.contains(pos.x as int, pos.y as int, pos.z as int),
            final(self)@ == if done {
                old(self)@.with_tile(pos.x as int, pos.y as int, pos.z as int, tile)
            } else {
                old(self)@
            },
    {
        let (w, h, d) = array_dim(self);
        if pos.x < w && pos.y < h && pos.z < d {
            array_set(self, pos.x, pos.y, pos.z, tile);
            true
        } else {
            false
        }
    }
}

} // verus!

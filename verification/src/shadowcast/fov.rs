//! The field of view: which tiles the eye sees, and in which order they are
//! drawn.

use vstd::prelude::*;
use crate::geometry::point::{GridCoord, Point3};
use crate::rendering::tile::Tile;
use crate::shadowcast::cast::{cast, cast_visits};
use crate::shadowcast::scan::Visit;
use crate::shadowcast::shape::LightShape;
use crate::shadowcast::theorems::{lemma_cast_visits_valid, visit_valid, visits_valid};
use crate::util::{distance_squared, LookupTables};
use crate::world::grid::{GridView, TileGrid};

verus! {

/// A tile that is drawn: the tile, its place in the grid, and the square of
/// its distance from the eye, counted in layers.
#[derive(Debug, Clone, Copy, PartialEq, Eq)]
pub struct DrawTile {
    pub tile: Tile,
    pub pos: GridCoord,
    pub dist_from_eye: usize,
}

impl DrawTile {
    /// Whether this tile is drawn before the other: the farther tile first,
    /// and of two tiles at the same distance the one with the larger index,
    /// the x axis counting most and the z axis least.
    pub open spec fn spec_draws_before(self, other: DrawTile) -> bool {
        ||| self.dist_from_eye > other.dist_from_eye
        ||| (self.dist_from_eye == other.dist_from_eye && self.pos.x > other.pos.x)
        ||| (self.dist_from_eye == other.dist_from_eye && self.pos.x == other.pos.x && self.pos.y
            > other.pos.y)
        ||| (self.dist_from_eye == other.dist_from_eye && self.pos.x == other.pos.x && self.pos.y
            == other.pos.y && self.pos.z > other.pos.z)
    }

    /// Whether the two tiles hold the same place in the order of drawing:
    /// they lie at the same distance in the same place.
    pub open spec fn same_place(self, other: DrawTile) -> bool {
        self.dist_from_eye == other.dist_from_eye && self.pos == other.pos
    }

    /// Whether this tile is drawn before the other.
    pub fn draws_before(&self, other: &DrawTile) -> (b: bool)
        ensures
            b == self.spec_draws_before(*other),
    {
        if self.dist_from_eye != other.dist_from_eye {
            self.dist_from_eye > other.dist_from_eye
        } else if self.pos.x != other.pos.x {
            self.pos.x > other.pos.x
        } else if self.pos.y != other.pos.y {
            self.pos.y > other.pos.y
        } else {
            self.pos.z > other.pos.z
        }
    }
}

/// The order of drawing is a strict total order on the places: of two tiles
/// in different places exactly one is drawn before the other, no tile is
/// drawn before itself, and the order is transitive.
pub proof fn lemma_draw_order(a: DrawTile, b: DrawTile, c: DrawTile)
    ensures
        !a.spec_draws_before(a),
        a.same_place(b) <==> !a.spec_draws_before(b) && !b.spec_draws_before(a),
        !(a.spec_draws_before(b) && b.spec_draws_before(a)),
        a.spec_draws_before(b) && b.spec_draws_before(c) ==> a.spec_draws_before(c),
{
}

/// Whether a tile shows: it does not let light pass, and light falls on it.
pub open spec fn shows(tile: Tile) -> bool {
    !tile.tile_type.transparent() && tile.lit()
}

/// The tile that is drawn for a visit.
pub open spec fn draw_tile_of(grid: GridView, v: Visit) -> DrawTile {
    DrawTile {
        tile: grid.tile(v.pos.x as int, v.pos.y as int, v.pos.z as int),
        pos: v.pos,
        dist_from_eye: distance_squared(v.offset.0 as int, v.offset.1 as int, v.offset.2 as int) as usize,
    }
}

/// The tiles that are drawn for a sequence of visits: one for each visit to
/// a tile that shows, in the order of the visits.
pub open spec fn draw_tiles(grid: GridView, visits: Seq<Visit>) -> Seq<DrawTile>
    decreases visits.len(),
{
    if visits.len() == 0 {
        Seq::empty()
    } else {
        let before = draw_tiles(grid, visits.drop_last());
        let v = visits.last();
        if shows(grid.tile(v.pos.x as int, v.pos.y as int, v.pos.z as int)) {
            before.push(draw_tile_of(grid, v))
        } else {
            before
        }
    }
}

/// What the eye at `eye` sees as far as `sight_range`: casts a sphere from
/// there and returns, for every visit to a tile that blocks the light and is
/// lit, the tile to draw. A tile that the cast reaches more than once is
/// returned more than once.
pub fn field_of_view(
    grid: &TileGrid,
    eye: GridCoord,
    sight_range: usize,
    source_pos: Point3,
    tables: &LookupTables,
) -> (tiles: Vec<DrawTile>)
    requires
        sight_range <= tables.spec_max_range(),
    ensures
        tiles@ == draw_tiles(
            grid@,
            cast_visits(grid@, eye, sight_range, LightShape::Sphere, source_pos),
        ),
{
    let shape = LightShape::Sphere;
    let visits = cast(grid, eye, sight_range, &shape, source_pos, tables);
    let (width, height, depth) = grid.dim();
    proof {
        lemma_cast_visits_valid(grid@, eye, sight_range, shape, source_pos);
    }
    tiles_to_draw(grid, &visits, sight_range, tables)
}

/// The tiles to draw for the visits of a cast: one for each visit to a tile
/// that shows.
fn tiles_to_draw(grid: &TileGrid, visits: &Vec<Visit>, sight_range: usize, tables: &LookupTables) -> (tiles:
    Vec<DrawTile>)
    requires
        sight_range <= tables.spec_max_range(),
        visits_valid(grid@, sight_range, visits@),
    ensures
        tiles@ == draw_tiles(grid@, visits@),
{
    let mut tiles: Vec<DrawTile> = Vec::new();
    let mut i: usize = 0;
    while i < visits.len()
        invariant
            sight_range <= tables.spec_max_range(),
            i <= visits.len(),
            visits_valid(grid@, sight_range, visits@),
            tiles@ == draw_tiles(grid@, visits@.take(i as int)),
        decreases visits.len() - i,
    {
        let v = visits[i];
        assert(visit_valid(grid@, sight_range, visits@[i as int]));
        let tile = grid.tile_at(v.pos);
        proof {
            assert(visits@.take(i + 1).drop_last() =~= visits@.take(i as int));
            assert(visits@.take(i + 1).last() == v);
        }
        if !tile.tile_type.is_transparent() && tile.illuminated() {
            let dist_from_eye = tables.distance_squared(v.offset.0, v.offset.1, v.offset.2);
            tiles.push(DrawTile { tile, pos: v.pos, dist_from_eye });
        }
        i += 1;
    }
    proof {
        assert(visits@.take(visits.len() as int) =~= visits@);
    }
    tiles
}

} // verus!

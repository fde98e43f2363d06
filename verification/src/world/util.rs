//! Queries on the world grid: neighbours and lines of sight.

use vstd::prelude::*;
use crate::constants::CHUNK_SIZE;
use crate::geometry::point::{GridCoord, Point3};
use crate::geometry::util::{calculate_bresenham, in_line_reach, line_point, line_steps};
use crate::rendering::tile::Tile;
use crate::world::grid::{GridView, TileGrid};

verus! {

/// The `j`-th of the 27 cells around `pos`, `pos` itself among them: the
/// offsets run from -1 to 1 along each axis, the x axis changing slowest.
pub open spec fn neighbour(pos: Point3, j: int) -> (int, int, int) {
    (pos.x + j / 9 - 1, pos.y + (j / 3) % 3 - 1, pos.z + j % 3 - 1)
}

/// Whether any of the 27 cells around `pos` that lie in the grid, `pos`
/// itself among them, holds a tile of which `f` says yes.
pub fn any_neighbour_is<F: Fn(&Tile) -> bool>(array: &TileGrid, pos: Point3, f: F) -> (found: bool)
    requires
        forall|t: Tile| call_requires(f, (&t,)),
    ensures
        found ==> exists|j: int|
            0 <= j < 27 && ({
                let n = #[trigger] neighbour(pos, j);
                array@.contains(n.0, n.1, n.2) && call_ensures(f, (&array@.tile(n.0, n.1, n.2),), true)
            }),
        !found ==> forall|j: int|
            0 <= j < 27 ==> ({
                let n = #[trigger] neighbour(pos, j);
                array@.contains(n.0, n.1, n.2) ==> call_ensures(
                    f,
                    (&array@.tile(n.0, n.1, n.2),),
                    false,
                )
            }),
{
    let (width, height, depth) = array.dim();
    let mut j: usize = 0;
    while j < 27
        invariant
            j <= 27,
            forall|t: Tile| call_requires(f, (&t,)),
            width == array@.width && height == array@.height && depth == array@.depth,
            forall|k: int|
                0 <= k < j ==> ({
                    let n = #[trigger] neighbour(pos, k);
                    array@.contains(n.0, n.1, n.2) ==> call_ensures(
                        f,
                        (&array@.tile(n.0, n.1, n.2),),
                        false,
                    )
                }),
        decreases 27 - j,
    {
        let x: i64 = pos.x as i64 + (j / 9) as i64 - 1;
        let y: i64 = pos.y as i64 + ((j / 3) % 3) as i64 - 1;
        let z: i64 = pos.z as i64 + (j % 3) as i64 - 1;
        assert((x as int, y as int, z as int) == neighbour(pos, j as int));
        if x >= 0 && y >= 0 && z >= 0 {
            let here = GridCoord { x: x as usize, y: y as usize, z: z as usize };
            if here.x < width && here.y < height && here.z < depth {
                let tile = array.tile_at(here);
                if f(&tile) {
                    return true;
                }
            }
        }
        j += 1;
    }
    false
}

/// Whether the point lies in the chunk.
pub open spec fn in_chunk(p: Point3) -> bool {
    0 <= p.x < CHUNK_SIZE && 0 <= p.y < CHUNK_SIZE && 0 <= p.z < CHUNK_SIZE
}

/// Whether a ray stops at the point: the point lies in the chunk and in the
/// grid, and the tile there does not let light pass.
pub open spec fn stops_ray(grid: GridView, p: Point3) -> bool {
    in_chunk(p) && grid.contains(p.x as int, p.y as int, p.z as int) && !grid.tile(
        p.x as int,
        p.y as int,
        p.z as int,
    ).tile_type.transparent()
}

/// Whether the point lies in the chunk.
fn is_in_chunk(p: Point3) -> (b: bool)
    ensures
        b == in_chunk(p),
{
    p.x >= 0 && (p.x as usize) < CHUNK_SIZE && p.y >= 0 && (p.y as usize) < CHUNK_SIZE && p.z >= 0
        && (p.z as usize) < CHUNK_SIZE
}

/// Follows the straight line of cells from `src` to `dest` and returns the
/// first cell at which the ray stops; `dest` if it stops nowhere, and `src`
/// if `src` lies outside the chunk.
pub fn try_bresenham_hitscan(tile_array: &TileGrid, src: Point3, dest: Point3) -> (hit: Point3)
    requires
        in_line_reach(dest),
    ensures
        !in_chunk(src) ==> hit == src,
        in_chunk(src) ==> {
            ||| exists|i: int|
                0 <= i <= line_steps(src, dest) && hit == #[trigger] line_point(src, dest, i)
                    && stops_ray(tile_array@, hit) && forall|j: int|
                    0 <= j < i ==> !stops_ray(tile_array@, #[trigger] line_point(src, dest, j))
            ||| hit == dest && forall|j: int|
                0 <= j <= line_steps(src, dest) ==> !stops_ray(
                    tile_array@,
                    #[trigger] line_point(src, dest, j),
                )
        },
{
    if !is_in_chunk(src) {
        return src;
    }
    let line = calculate_bresenham(src, dest);
    let mut i: usize = 0;
    while i < line.len()
        invariant
            in_chunk(src),
            i <= line@.len(),
            line@.len() == line_steps(src, dest) + 1,
            forall|k: int| 0 <= k < line@.len() ==> #[trigger] line@[k] == line_point(src, dest, k),
            forall|j: int| 0 <= j < i ==> !stops_ray(tile_array@, #[trigger] line_point(src, dest, j)),
        decreases line@.len() - i,
    {
        let ray_point = line[i];
        assert(ray_point == line_point(src, dest, i as int));
        if is_in_chunk(ray_point) {
            let here = GridCoord {
                x: ray_point.x as usize,
                y: ray_point.y as usize,
                z: ray_point.z as usize,
            };
            match tile_array.get(here) {
                Some(ray_tile) => {
                    if !ray_tile.tile_type.is_transparent() {
                        return ray_point;
                    }
                },
                None => {},
            }
        }
        i += 1;
    }
    dest
}

} // verus!

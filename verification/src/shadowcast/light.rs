//! Light on the tiles: how colours combine, how a light fades with the
//! distance, and how a cast paints the grid.

use vstd::prelude::*;
use vstd::arithmetic::mul::lemma_mul_upper_bound;
use crate::geometry::point::{GridCoord, Point3};
use crate::rendering::color::Color;
use crate::rendering::tile::Tile;
use crate::shadowcast::cast::{cast, cast_visits};
use crate::shadowcast::scan::Visit;
use crate::shadowcast::shape::LightShape;
use crate::shadowcast::theorems::{lemma_cast_visits_valid, visit_valid, visits_valid};
use crate::util::{distance_squared, LookupTables};
use crate::world::grid::{GridView, TileGrid};

verus! {

/// The larger of two channels.
pub open spec fn max_channel(a: u8, b: u8) -> u8 {
    if a >= b {
        a
    } else {
        b
    }
}

/// The colour that two lights give together: in each channel the stronger
/// of the two.
pub open spec fn spec_combine(a: Color, b: Color) -> Color {
    Color { r: max_channel(a.r, b.r), g: max_channel(a.g, b.g), b: max_channel(a.b, b.b) }
}

/// The colour halfway between two colours, each channel rounded down.
pub open spec fn spec_average(a: Color, b: Color) -> Color {
    Color {
        r: ((a.r + b.r) / 2) as u8,
        g: ((a.g + b.g) / 2) as u8,
        b: ((a.b + b.b) / 2) as u8,
    }
}

/// Whether `v` is the channel `c` of a light as it arrives at the squared
/// distance `d2` when the light reaches as far as `range`: the channel times
/// `1 - d / range`, `d` being the distance, rounded down; nothing at all at
/// the range and beyond it.
pub open spec fn is_faded(c: int, d2: int, range: int, v: int) -> bool {
    if d2 >= range * range {
        v == 0
    } else {
        &&& 0 <= v <= c
        &&& (c - v) * (c - v) * (range * range) >= c * c * d2
        &&& v < c ==> (c - v - 1) * (c - v - 1) * (range * range) < c * c * d2
    }
}

fn max_u8(a: u8, b: u8) -> (m: u8)
    ensures
        m == max_channel(a, b),
{
    if a >= b {
        a
    } else {
        b
    }
}

/// Combines the light of two sources on one tile: the stronger of the two
/// wins in each channel, so that lights that overlap do not add up.
pub fn combine_light_colors(a: Color, b: Color) -> (c: Color)
    ensures
        c == spec_combine(a, b),
{
    Color { r: max_u8(a.r, b.r), g: max_u8(a.g, b.g), b: max_u8(a.b, b.b) }
}

fn half_sum(a: u8, b: u8) -> (m: u8)
    ensures
        m == (a + b) / 2,
{
    ((a as u16 + b as u16) / 2) as u8
}

/// The colour halfway between two colours.
pub fn average_colors(a: Color, b: Color) -> (c: Color)
    ensures
        c == spec_average(a, b),
{
    Color { r: half_sum(a.r, b.r), g: half_sum(a.g, b.g), b: half_sum(a.b, b.b) }
}

/// The mean of the three channels, rounded down.
pub fn color_value(color: &Color) -> (v: u8)
    ensures
        v == (color.r + color.g + color.b) / 3,
{
    ((color.r as u16 + color.g as u16 + color.b as u16) / 3) as u8
}

/// The strongest of the three channels.
pub fn color_max(color: &Color) -> (v: u8)
    ensures
        v == max_channel(max_channel(color.r, color.g), color.b),
{
    max_u8(max_u8(color.r, color.g), color.b)
}

/// One channel of a light as it arrives at the squared distance `d2`.
fn fade_channel(c: u8, d2: usize, range: usize) -> (v: u8)
    requires
        range <= u32::MAX,
    ensures
        is_faded(c as int, d2 as int, range as int, v as int),
{
    proof {
        lemma_mul_upper_bound(range as int, 0xffff_ffff, range as int, 0xffff_ffff);
        lemma_mul_upper_bound(c as int, 255, c as int, 255);
    }
    let r2: u128 = (range as u128) * (range as u128);
    if d2 as u128 >= r2 {
        return 0;
    }
    let cc: u128 = (c as u128) * (c as u128);
    proof {
        lemma_mul_upper_bound(cc as int, 255int * 255, d2 as int, 0xffff_ffffint * 0xffff_ffff);
    }
    let target: u128 = cc * (d2 as u128);
    let mut k: u8 = 0;
    loop
        invariant
            k <= c,
            r2 == range * range,
            r2 <= 0xffff_ffff * 0xffff_ffff,
            target == (c * c) * d2,
            k > 0 ==> ((k - 1) * (k - 1)) * r2 < target,
        ensures
            k <= c,
            k < c ==> (k * k) * r2 >= target,
            k > 0 ==> ((k - 1) * (k - 1)) * r2 < target,
        decreases c - k,
    {
        if k >= c {
            break ;
        }
        proof {
            lemma_mul_upper_bound(k as int, 255, k as int, 255);
        }
        let kk: u128 = (k as u128) * (k as u128);
        proof {
            lemma_mul_upper_bound(kk as int, 255int * 255, r2 as int, 0xffff_ffffint * 0xffff_ffff);
        }
        if kk * r2 >= target {
            break ;
        }
        k += 1;
    }
    proof {
        let (ci, ki, r) = (c as int, k as int, range as int);
        assert((ci * ci) * (d2 as int) == ci * ci * d2);
        assert((ki * ki) * (r * r) == ki * ki * (r * r));
        if k == c {
            // The light reaches the cell, so the whole channel is enough to fade by.
            assert((ci * ci) * (r * r) >= (ci * ci) * d2) by (nonlinear_arith)
                requires
                    d2 < r * r,
                    0 <= ci * ci,
            ;
        }
        if k > 0 {
            assert(((ki - 1) * (ki - 1)) * (r * r) == (ki - 1) * (ki - 1) * (r * r));
        }
    }
    c - k
}

/// A light as it arrives at the squared distance `d2` when it reaches as far
/// as `range`: each channel fades in proportion to the distance, down to
/// nothing at the range.
pub fn scale_color(color: Color, d2: usize, range: usize) -> (c: Color)
    requires
        range <= u32::MAX,
    ensures
        is_faded(color.r as int, d2 as int, range as int, c.r as int),
        is_faded(color.g as int, d2 as int, range as int, c.g as int),
        is_faded(color.b as int, d2 as int, range as int, c.b as int),
{
    Color {
        r: fade_channel(color.r, d2, range),
        g: fade_channel(color.g, d2, range),
        b: fade_channel(color.b, d2, range),
    }
}

/// Fading is a function: a channel arrives at a distance with one strength
/// only.
pub proof fn lemma_faded_is_unique(c: int, d2: int, range: int, v: int, w: int)
    requires
        0 <= c,
        0 <= d2,
        is_faded(c, d2, range, v),
        is_faded(c, d2, range, w),
    ensures
        v == w,
{
    if d2 < range * range && v != w {
        let r2 = range * range;
        let (lo, hi) = if v < w {
            (v, w)
        } else {
            (w, v)
        };
        // lo < hi <= c: fading by c - lo - 1 is not enough, yet fading by c - hi is.
        assert((c - hi) * (c - hi) * r2 <= (c - lo - 1) * (c - lo - 1) * r2) by (nonlinear_arith)
            requires
                0 <= c - hi <= c - lo - 1,
                0 <= r2,
        ;
    }
}

/// Combining lights takes the stronger channel: it does not depend on the
/// order, a colour combined with itself or with black is itself, and the
/// result is no weaker than either light.
pub proof fn lemma_combine_is_maximum(a: Color, b: Color, c: Color)
    ensures
        spec_combine(a, b) == spec_combine(b, a),
        spec_combine(a, a) == a,
        spec_combine(a, Color { r: 0, g: 0, b: 0 }) == a,
        spec_combine(spec_combine(a, b), c) == spec_combine(a, spec_combine(b, c)),
        spec_combine(a, b).r >= a.r && spec_combine(a, b).r >= b.r,
        spec_combine(a, b).g >= a.g && spec_combine(a, b).g >= b.g,
        spec_combine(a, b).b >= a.b && spec_combine(a, b).b >= b.b,
{
}

/// The channel `c` of a light as it arrives at the squared distance `d2`.
pub open spec fn faded(c: u8, d2: int, range: int) -> u8 {
    choose|v: u8| is_faded(c as int, d2, range, v as int)
}

/// A light as it arrives at the squared distance `d2`.
pub open spec fn spec_scale(color: Color, d2: int, range: int) -> Color {
    Color { r: faded(color.r, d2, range), g: faded(color.g, d2, range), b: faded(color.b, d2, range) }
}

/// A tile with the light of one more source on it, which arrives from the
/// distance of the visit.
pub open spec fn lit_tile(tile: Tile, light: Color, v: Visit, range: usize) -> Tile {
    Tile {
        illumination_color: spec_combine(
            spec_scale(
                light,
                distance_squared(v.offset.0 as int, v.offset.1 as int, v.offset.2 as int),
                range as int,
            ),
            tile.illumination_color,
        ),
        ..tile
    }
}

/// The grid after a light has been painted on the tiles of the given visits,
/// one visit after the other.
pub open spec fn painted(grid: GridView, visits: Seq<Visit>, light: Color, range: usize) -> GridView
    decreases visits.len(),
{
    if visits.len() == 0 {
        grid
    } else {
        let before = painted(grid, visits.drop_last(), light, range);
        let v = visits.last();
        let (x, y, z) = (v.pos.x as int, v.pos.y as int, v.pos.z as int);
        before.with_tile(x, y, z, lit_tile(before.tile(x, y, z), light, v, range))
    }
}

/// A light as it arrives at the squared distance `d2` when it reaches as far
/// as `range`.
pub fn fade_color(color: Color, d2: usize, range: usize) -> (c: Color)
    requires
        range <= u32::MAX,
    ensures
        c == spec_scale(color, d2 as int, range as int),
{
    let c = scale_color(color, d2, range);
    proof {
        lemma_faded_is_unique(
            color.r as int,
            d2 as int,
            range as int,
            c.r as int,
            faded(color.r, d2 as int, range as int) as int,
        );
        lemma_faded_is_unique(
            color.g as int,
            d2 as int,
            range as int,
            c.g as int,
            faded(color.g, d2 as int, range as int) as int,
        );
        lemma_faded_is_unique(
            color.b as int,
            d2 as int,
            range as int,
            c.b as int,
            faded(color.b, d2 as int, range as int) as int,
        );
    }
    c
}

/// Lets a light shine from `light_pos`: casts from there as far as
/// `cast_range`, and on every tile that the cast reaches combines the light,
/// faded by the distance, with the light that is on the tile already.
pub fn illuminate(
    grid: &mut TileGrid,
    light_pos: GridCoord,
    light_color: Color,
    cast_range: usize,
    shape: &LightShape,
    source_pos: Point3,
    tables: &LookupTables,
)
    requires
        cast_range <= tables.spec_max_range(),
        shape.in_reach(old(grid)@.width as int, old(grid)@.height as int, old(grid)@.depth as int),
    ensures
        final(grid)@ == painted(
            old(grid)@,
            cast_visits(old(grid)@, light_pos, cast_range, *shape, source_pos),
            light_color,
            cast_range,
        ),
{
    let visits = cast(grid, light_pos, cast_range, shape, source_pos, tables);
    let ghost start = grid@;
    let (width, height, depth) = grid.dim();
    let max_range = tables.max_range();
    proof {
        lemma_cast_visits_valid(start, light_pos, cast_range, *shape, source_pos);
        assert(cast_range <= u32::MAX) by (nonlinear_arith)
            requires
                0 <= cast_range <= max_range,
                3 * (max_range * max_range) <= usize::MAX,
                usize::MAX <= 0xffff_ffff_ffff_ffff,
        ;
    }
    let mut i: usize = 0;
    while i < visits.len()
        invariant
            cast_range <= tables.spec_max_range(),
            cast_range <= u32::MAX,
            i <= visits.len(),
            visits_valid(start, cast_range, visits@),
            grid@.width == start.width,
            grid@.height == start.height,
            grid@.depth == start.depth,
            grid@ == painted(start, visits@.take(i as int), light_color, cast_range),
        decreases visits.len() - i,
    {
        let v = visits[i];
        assert(visit_valid(start, cast_range, visits@[i as int]));
        let tile = grid.tile_at(v.pos);
        let d2 = tables.distance_squared(v.offset.0, v.offset.1, v.offset.2);
        let arriving = fade_color(light_color, d2, cast_range);
        let lit = Tile {
            illumination_color: combine_light_colors(arriving, tile.illumination_color),
            tile_type: tile.tile_type,
        };
        grid.set(v.pos, lit);
        proof {
            assert(visits@.take(i + 1).drop_last() =~= visits@.take(i as int));
            assert(visits@.take(i + 1).last() == v);
        }
        i += 1;
    }
    proof {
        assert(visits@.take(visits.len() as int) =~= visits@);
    }
}

/// Takes the light off every tile of the grid.
pub fn reset_illumination(grid: &mut TileGrid)
    ensures
        final(grid)@.width == old(grid)@.width,
        final(grid)@.height == old(grid)@.height,
        final(grid)@.depth == old(grid)@.depth,
        forall|x: int, y: int, z: int| #[trigger]
            old(grid)@.contains(x, y, z) ==> final(grid)@.tile(x, y, z) == (Tile {
                illumination_color: Color { r: 0, g: 0, b: 0 },
                tile_type: old(grid)@.tile(x, y, z).tile_type,
            }),
{
    let (width, height, depth) = grid.dim();
    let ghost start = grid@;
    let mut x: usize = 0;
    while x < width
        invariant
            x <= width,
            grid@.width == start.width == width,
            grid@.height == start.height == height,
            grid@.depth == start.depth == depth,
            forall|i: int, j: int, k: int| #[trigger]
                start.contains(i, j, k) ==> grid@.tile(i, j, k) == if i < x {
                    Tile {
                        illumination_color: Color { r: 0, g: 0, b: 0 },
                        tile_type: start.tile(i, j, k).tile_type,
                    }
                } else {
                    start.tile(i, j, k)
                },
        decreases width - x,
    {
        let mut y: usize = 0;
        while y < height
            invariant
                x < width,
                y <= height,
                grid@.width == start.width == width,
                grid@.height == start.height == height,
                grid@.depth == start.depth == depth,
                forall|i: int, j: int, k: int| #[trigger]
                    start.contains(i, j, k) ==> grid@.tile(i, j, k) == if i < x || (i == x && j
                        < y) {
                        Tile {
                            illumination_color: Color { r: 0, g: 0, b: 0 },
                            tile_type: start.tile(i, j, k).tile_type,
                        }
                    } else {
                        start.tile(i, j, k)
                    },
            decreases height - y,
        {
            let mut z: usize = 0;
            while z < depth
                invariant
                    x < width,
                    y < height,
                    z <= depth,
                    grid@.width == start.width == width,
                    grid@.height == start.height == height,
                    grid@.depth == start.depth == depth,
                    forall|i: int, j: int, k: int| #[trigger]
                        start.contains(i, j, k) ==> grid@.tile(i, j, k) == if i < x || (i == x && (j
                            < y || (j == y && k < z))) {
                            Tile {
                                illumination_color: Color { r: 0, g: 0, b: 0 },
                                tile_type: start.tile(i, j, k).tile_type,
                            }
                        } else {
                            start.tile(i, j, k)
                        },
                decreases depth - z,
            {
                let pos = GridCoord { x, y, z };
                let tile = grid.tile_at(pos);
                assert(start.contains(x as int, y as int, z as int));
                grid.set(pos, Tile::new(tile.tile_type));
                z += 1;
            }
            y += 1;
        }
        x += 1;
    }
}

/// A light in the grid.
#[derive(Clone, Copy, Debug, PartialEq, Eq)]
pub struct LightSource {
    pub pos: GridCoord,
    pub color: Color,
}

/// Whether two grids have the same extent and the same tile in every cell.
pub open spec fn same_grid(a: GridView, b: GridView) -> bool {
    &&& a.width == b.width
    &&& a.height == b.height
    &&& a.depth == b.depth
    &&& forall|x: int, y: int, z: int| #[trigger] a.contains(x, y, z) ==> a.tile(x, y, z) == b.tile(x, y, z)
}

/// A tile without light on it.
pub open spec fn dark_tile(tile: Tile) -> Tile {
    Tile { illumination_color: Color { r: 0, g: 0, b: 0 }, ..tile }
}

/// The grid without light on any tile.
pub open spec fn darkened(grid: GridView) -> GridView {
    GridView {
        tiles: Map::new(|k: (int, int, int)| true, |k: (int, int, int)| dark_tile(grid.tiles[k])),
        ..grid
    }
}

/// The point in space at which a cell of the grid lies; the coordinates stop
/// at the largest number.
pub open spec fn point_of(pos: GridCoord) -> Point3 {
    Point3 {
        x: if pos.x > i32::MAX { i32::MAX } else { pos.x as i32 },
        y: if pos.y > i32::MAX { i32::MAX } else { pos.y as i32 },
        z: if pos.z > i32::MAX { i32::MAX } else { pos.z as i32 },
    }
}

/// The grid after the first `k` of the lights have shone into it, each as a
/// sphere as far as `cast_range`, one after the other.
pub open spec fn lit_by(grid: GridView, lights: Seq<LightSource>, cast_range: usize, k: int) -> GridView
    decreases k,
{
    if k <= 0 {
        grid
    } else {
        let before = lit_by(grid, lights, cast_range, k - 1);
        let light = lights[k - 1];
        painted(
            before,
            cast_visits(before, light.pos, cast_range, LightShape::Sphere, point_of(light.pos)),
            light.color,
            cast_range,
        )
    }
}

fn to_point(pos: GridCoord) -> (p: Point3)
    ensures
        p == point_of(pos),
{
    Point3 {
        x: if pos.x > i32::MAX as usize { i32::MAX } else { pos.x as i32 },
        y: if pos.y > i32::MAX as usize { i32::MAX } else { pos.y as i32 },
        z: if pos.z > i32::MAX as usize { i32::MAX } else { pos.z as i32 },
    }
}

/// Painting keeps the extent of the grid.
pub proof fn lemma_painted_extent(grid: GridView, visits: Seq<Visit>, light: Color, range: usize)
    ensures
        painted(grid, visits, light, range).width == grid.width,
        painted(grid, visits, light, range).height == grid.height,
        painted(grid, visits, light, range).depth == grid.depth,
    decreases visits.len(),
{
    if visits.len() > 0 {
        lemma_painted_extent(grid, visits.drop_last(), light, range);
    }
}

/// Painting keeps the materials of the grid.
pub proof fn lemma_painted_materials(grid: GridView, visits: Seq<Visit>, light: Color, range: usize)
    ensures
        crate::shadowcast::theorems::same_materials(grid, painted(grid, visits, light, range)),
    decreases visits.len(),
{
    lemma_painted_extent(grid, visits, light, range);
    if visits.len() > 0 {
        lemma_painted_materials(grid, visits.drop_last(), light, range);
        lemma_painted_extent(grid, visits.drop_last(), light, range);
    }
}

/// A cast sees the same after light has been painted: it reaches the same
/// cells in the same order as before.
pub proof fn lemma_cast_after_light(
    grid: GridView,
    visits: Seq<Visit>,
    light: Color,
    range: usize,
    origin: GridCoord,
    cast_range: usize,
    shape: LightShape,
    source: Point3,
)
    requires
        grid.width <= usize::MAX,
        grid.height <= usize::MAX,
        grid.depth <= usize::MAX,
    ensures
        cast_visits(painted(grid, visits, light, range), origin, cast_range, shape, source)
            == cast_visits(grid, origin, cast_range, shape, source),
{
    lemma_painted_materials(grid, visits, light, range);
    crate::shadowcast::theorems::lemma_cast_ignores_light(
        grid,
        painted(grid, visits, light, range),
        origin,
        cast_range,
        shape,
        source,
    );
}

/// Painting the same visits onto grids with the same tiles gives grids with
/// the same tiles.
pub proof fn lemma_painted_same(
    a: GridView,
    b: GridView,
    visits: Seq<Visit>,
    light: Color,
    range: usize,
)
    requires
        same_grid(a, b),
        visits_valid(a, range, visits),
    ensures
        same_grid(painted(a, visits, light, range), painted(b, visits, light, range)),
    decreases visits.len(),
{
    if visits.len() > 0 {
        let rest = visits.drop_last();
        assert forall|i: int| 0 <= i < rest.len() implies visit_valid(a, range, #[trigger] rest[i]) by {
            assert(rest[i] == visits[i]);
        }
        lemma_painted_same(a, b, rest, light, range);
        lemma_painted_extent(a, rest, light, range);
        lemma_painted_extent(b, rest, light, range);
        let v = visits.last();
        assert(visit_valid(a, range, visits[visits.len() - 1]));
        let pa = painted(a, rest, light, range);
        let pb = painted(b, rest, light, range);
        let (vx, vy, vz) = (v.pos.x as int, v.pos.y as int, v.pos.z as int);
        assert(pa.contains(vx, vy, vz));
        assert(pa.tile(vx, vy, vz) == pb.tile(vx, vy, vz));
        let qa = painted(a, visits, light, range);
        let qb = painted(b, visits, light, range);
        assert forall|x: int, y: int, z: int| #[trigger] qa.contains(x, y, z) implies qa.tile(x, y, z)
            == qb.tile(x, y, z) by {
            assert(pa.contains(x, y, z));
            if (x, y, z) == (vx, vy, vz) {
            } else {
                assert(qa.tile(x, y, z) == pa.tile(x, y, z));
                assert(qb.tile(x, y, z) == pb.tile(x, y, z));
            }
        }
    }
}

/// Lights the grid anew: takes the light off every tile, then lets each of
/// the lights shine as a sphere as far as `cast_range`, one after the other.
/// Light is not kept from one call to the next.
pub fn relight(grid: &mut TileGrid, lights: &Vec<LightSource>, cast_range: usize, tables: &LookupTables)
    requires
        cast_range <= tables.spec_max_range(),
    ensures
        same_grid(
            final(grid)@,
            lit_by(darkened(old(grid)@), lights@, cast_range, lights@.len() as int),
        ),
{
    reset_illumination(grid);
    let ghost start = darkened(old(grid)@);
    let (width, height, depth) = grid.dim();
    let shape = LightShape::Sphere;
    let mut k: usize = 0;
    proof {
        assert forall|x: int, y: int, z: int| #[trigger] grid@.contains(x, y, z) implies grid@.tile(
            x,
            y,
            z,
        ) == start.tile(x, y, z) by {
            assert(old(grid)@.contains(x, y, z));
        }
    }
    while k < lights.len()
        invariant
            cast_range <= tables.spec_max_range(),
            shape == LightShape::Sphere,
            k <= lights@.len(),
            grid@.width <= usize::MAX && grid@.height <= usize::MAX && grid@.depth <= usize::MAX,
            same_grid(grid@, lit_by(start, lights@, cast_range, k as int)),
        decreases lights@.len() - k,
    {
        let light = lights[k];
        let source = to_point(light.pos);
        let ghost before = grid@;
        let ghost model = lit_by(start, lights@, cast_range, k as int);
        illuminate(grid, light.pos, light.color, cast_range, &shape, source, tables);
        proof {
            let visits = cast_visits(before, light.pos, cast_range, shape, source);
            crate::shadowcast::theorems::lemma_cast_ignores_light(
                before,
                model,
                light.pos,
                cast_range,
                shape,
                source,
            );
            lemma_cast_visits_valid(before, light.pos, cast_range, shape, source);
            lemma_painted_same(before, model, visits, light.color, cast_range);
            lemma_painted_extent(before, visits, light.color, cast_range);
        }
        k += 1;
    }
}

} // verus!

//! The eight octants of the cube around an origin, and the views in which
//! they are scanned.

use vstd::prelude::*;
use crate::geometry::point::GridCoord;
use crate::shadowcast::slope::min_int;
use crate::world::grid::{GridView, TileGrid};

verus! {

/// One of the eight blocks into which the cube around an origin is cut. It
/// holds the cells from `lo` up to, but not including, `hi` on each axis.
/// `signs` says for each axis whether the block lies on the side of the
/// origin with the larger indices (`true`; the origin's own layer belongs to
/// that side) or on the side with the smaller ones (`false`).
#[derive(Clone, Copy, Debug, PartialEq, Eq)]
pub struct Octant {
    pub lo: GridCoord,
    pub hi: GridCoord,
    pub signs: (bool, bool, bool),
}

/// The larger of two numbers.
pub open spec fn max_int(a: int, b: int) -> int {
    if a >= b {
        a
    } else {
        b
    }
}

/// Where the cube around `origin` begins on an axis of length `len`.
pub open spec fn axis_lo(origin: int, range: int, len: int) -> int {
    min_int(max_int(origin - range, 0), len)
}

/// Where the cube around `origin` ends on an axis of length `len`.
pub open spec fn axis_hi(origin: int, range: int, len: int) -> int {
    min_int(origin + range, len)
}

/// Where the cube around `origin` is cut in two on an axis of length `len`:
/// at the origin, or at the end of the axis where the origin lies beyond it.
pub open spec fn axis_mid(origin: int, range: int, len: int) -> int {
    min_int(origin, len)
}

/// The part of an axis that the octants on one side of the origin hold.
pub open spec fn axis_part(origin: int, range: int, len: int, sign: bool) -> (int, int) {
    if sign {
        (axis_mid(origin, range, len), axis_hi(origin, range, len))
    } else {
        (axis_lo(origin, range, len), axis_mid(origin, range, len))
    }
}

/// The octant on the given sides of `origin` in a grid with the given axis
/// lengths.
pub open spec fn octant_of(
    dims: (int, int, int),
    origin: GridCoord,
    range: int,
    signs: (bool, bool, bool),
) -> Octant {
    let x = axis_part(origin.x as int, range, dims.0, signs.0);
    let y = axis_part(origin.y as int, range, dims.1, signs.1);
    let z = axis_part(origin.z as int, range, dims.2, signs.2);
    Octant {
        lo: GridCoord { x: x.0 as usize, y: y.0 as usize, z: z.0 as usize },
        hi: GridCoord { x: x.1 as usize, y: y.1 as usize, z: z.1 as usize },
        signs,
    }
}

/// The sides of the `k`-th octant: the x axis changes slowest, the z axis
/// fastest, the side with the smaller indices first.
pub open spec fn signs_of(k: int) -> (bool, bool, bool) {
    (k / 4 == 1, (k / 2) % 2 == 1, k % 2 == 1)
}

/// The index of a cell along an axis, counted from the origin outwards.
pub open spec fn axis_global(lo: int, hi: int, sign: bool, local: int) -> int {
    if sign {
        lo + local
    } else {
        hi - 1 - local
    }
}

impl Octant {
    /// The bounds are in order.
    pub open spec fn wf(self) -> bool {
        self.lo.x <= self.hi.x && self.lo.y <= self.hi.y && self.lo.z <= self.hi.z
    }

    /// The number of cells along each axis.
    pub open spec fn size(self) -> (int, int, int) {
        (self.hi.x - self.lo.x, self.hi.y - self.lo.y, self.hi.z - self.lo.z)
    }

    /// Whether the octant holds no cell.
    pub open spec fn spec_is_empty(self) -> bool {
        self.size().0 == 0 || self.size().1 == 0 || self.size().2 == 0
    }

    /// Whether the octant holds the cell with the given index.
    pub open spec fn holds(self, x: int, y: int, z: int) -> bool {
        self.lo.x <= x < self.hi.x && self.lo.y <= y < self.hi.y && self.lo.z <= z < self.hi.z
    }

    /// Whether every cell of the octant is a cell of the grid.
    pub open spec fn within(self, grid: GridView) -> bool {
        self.wf() && self.hi.x <= grid.width && self.hi.y <= grid.height && self.hi.z <= grid.depth
    }

    /// The index in the grid of the cell that lies `local` steps outwards
    /// from the corner of the octant next to the origin.
    pub open spec fn global(self, local: (int, int, int)) -> (int, int, int) {
        (
            axis_global(self.lo.x as int, self.hi.x as int, self.signs.0, local.0),
            axis_global(self.lo.y as int, self.hi.y as int, self.signs.1, local.1),
            axis_global(self.lo.z as int, self.hi.z as int, self.signs.2, local.2),
        )
    }

    /// The number of cells along each axis.
    pub fn dim(&self) -> (d: (usize, usize, usize))
        requires
            self.wf(),
        ensures
            (d.0 as int, d.1 as int, d.2 as int) == self.size(),
    {
        (self.hi.x - self.lo.x, self.hi.y - self.lo.y, self.hi.z - self.lo.z)
    }

    /// Whether the octant holds no cell.
    pub fn is_empty(&self) -> (b: bool)
        requires
            self.wf(),
        ensures
            b == self.spec_is_empty(),
    {
        self.hi.x == self.lo.x || self.hi.y == self.lo.y || self.hi.z == self.lo.z
    }
}

/// The three ways to lay the axes of an octant onto the axes of a scan. A
/// scan walks outwards along its third axis, the depth; `shift` is the axis
/// of the octant that becomes the first axis of the scan, the other two
/// follow in a cycle.
#[derive(Clone, Copy, Debug, PartialEq, Eq)]
pub struct ScanView {
    pub octant: Octant,
    pub shift: usize,
}

/// The position in the octant of a position in a scan whose axes are shifted
/// by `shift`.
pub open spec fn unshift(shift: int, p: (int, int, int)) -> (int, int, int) {
    if shift == 0 {
        (p.0, p.1, p.2)
    } else if shift == 1 {
        (p.2, p.0, p.1)
    } else {
        (p.1, p.2, p.0)
    }
}

/// The axis lengths of a scan whose axes are shifted by `shift`.
pub open spec fn shifted(shift: int, d: (int, int, int)) -> (int, int, int) {
    if shift == 0 {
        (d.0, d.1, d.2)
    } else if shift == 1 {
        (d.1, d.2, d.0)
    } else {
        (d.2, d.0, d.1)
    }
}

impl ScanView {
    /// The shift names an axis, and the octant is in order.
    pub open spec fn wf(self) -> bool {
        self.octant.wf() && self.shift < 3
    }

    /// The number of cells along each axis of the scan: width, height, depth.
    pub open spec fn size(self) -> (int, int, int) {
        shifted(self.shift as int, self.octant.size())
    }

    /// Whether the position lies inside the scan.
    pub open spec fn holds(self, p: (int, int, int)) -> bool {
        0 <= p.0 < self.size().0 && 0 <= p.1 < self.size().1 && 0 <= p.2 < self.size().2
    }

    /// The index in the grid of the cell at a position of the scan.
    pub open spec fn global(self, p: (int, int, int)) -> (int, int, int) {
        self.octant.global(unshift(self.shift as int, p))
    }

    /// The index in the grid of the cell at a position of the scan.
    pub open spec fn spec_cell(self, p: (int, int, int)) -> GridCoord {
        let g = self.global(p);
        GridCoord { x: g.0 as usize, y: g.1 as usize, z: g.2 as usize }
    }

    /// The number of cells along each axis of the scan: width, height, depth.
    pub fn dim(&self) -> (d: (usize, usize, usize))
        requires
            self.wf(),
        ensures
            (d.0 as int, d.1 as int, d.2 as int) == self.size(),
    {
        let (a, b, c) = self.octant.dim();
        if self.shift == 0 {
            (a, b, c)
        } else if self.shift == 1 {
            (b, c, a)
        } else {
            (c, a, b)
        }
    }

    /// The index in the grid of the cell at the position `(x, y, z)` of the
    /// scan.
    pub fn cell(&self, x: usize, y: usize, z: usize) -> (g: GridCoord)
        requires
            self.wf(),
            self.holds((x as int, y as int, z as int)),
        ensures
            g == self.spec_cell((x as int, y as int, z as int)),
            self.octant.holds(g.x as int, g.y as int, g.z as int),
    {
        let (lx, ly, lz) = if self.shift == 0 {
            (x, y, z)
        } else if self.shift == 1 {
            (z, x, y)
        } else {
            (y, z, x)
        };
        let o = &self.octant;
        GridCoord {
            x: if o.signs.0 { o.lo.x + lx } else { o.hi.x - 1 - lx },
            y: if o.signs.1 { o.lo.y + ly } else { o.hi.y - 1 - ly },
            z: if o.signs.2 { o.lo.z + lz } else { o.hi.z - 1 - lz },
        }
    }
}

fn saturating_sub(a: usize, b: usize) -> (r: usize)
    ensures
        r == max_int(a - b, 0),
{
    if a >= b {
        a - b
    } else {
        0
    }
}

fn clamped_add(a: usize, b: usize, limit: usize) -> (r: usize)
    ensures
        r == min_int(a + b, limit as int),
{
    if a >= limit {
        limit
    } else if b >= limit - a {
        limit
    } else {
        a + b
    }
}

fn min_usize(a: usize, b: usize) -> (r: usize)
    ensures
        r == min_int(a as int, b as int),
{
    if a <= b {
        a
    } else {
        b
    }
}

/// Cuts the cube of edge `2 * cast_range` around `origin`, as far as it lies
/// in the grid, into its eight octants. The cube is cut off at the borders of
/// the grid, so octants near a border are smaller or empty; an origin beyond
/// a border is taken as lying on it.
pub fn split_shadowcast_octants(tile_array: &TileGrid, origin: GridCoord, cast_range: usize) -> (octs:
    [Octant; 8])
    ensures
        forall|k: int|
            0 <= k < 8 ==> #[trigger] octs@[k] == octant_of(
                (tile_array@.width as int, tile_array@.height as int, tile_array@.depth as int),
                origin,
                cast_range as int,
                signs_of(k),
            ),
        forall|k: int| 0 <= k < 8 ==> (#[trigger] octs@[k]).within(tile_array@),
{
    let (tiles_width, tiles_height, tiles_depth) = tile_array.dim();
    let light_left = min_usize(saturating_sub(origin.x, cast_range), tiles_width);
    let light_right = clamped_add(origin.x, cast_range, tiles_width);
    let light_bottom = min_usize(saturating_sub(origin.y, cast_range), tiles_height);
    let light_top = clamped_add(origin.y, cast_range, tiles_height);
    let light_back = min_usize(saturating_sub(origin.z, cast_range), tiles_depth);
    let light_front = clamped_add(origin.z, cast_range, tiles_depth);
    let mid_x = min_usize(origin.x, tiles_width);
    let mid_y = min_usize(origin.y, tiles_height);
    let mid_z = min_usize(origin.z, tiles_depth);
    let bx = (light_left, mid_x);
    let tx = (mid_x, light_right);
    let by = (light_bottom, mid_y);
    let ty = (mid_y, light_top);
    let bz = (light_back, mid_z);
    let tz = (mid_z, light_front);
    let octs = [
        block(bx, by, bz, (false, false, false)),
        block(bx, by, tz, (false, false, true)),
        block(bx, ty, bz, (false, true, false)),
        block(bx, ty, tz, (false, true, true)),
        block(tx, by, bz, (true, false, false)),
        block(tx, by, tz, (true, false, true)),
        block(tx, ty, bz, (true, true, false)),
        block(tx, ty, tz, (true, true, true)),
    ];
    assert forall|k: int| 0 <= k < 8 implies #[trigger] octs@[k] == octant_of(
        (tile_array@.width as int, tile_array@.height as int, tile_array@.depth as int),
        origin,
        cast_range as int,
        signs_of(k),
    ) && octs@[k].within(tile_array@) by {
        if k == 0 {
        } else if k == 1 {
        } else if k == 2 {
        } else if k == 3 {
        } else if k == 4 {
        } else if k == 5 {
        } else if k == 6 {
        } else {
        }
    }
    octs
}

/// The block that spans the given part of each axis.
fn block(x: (usize, usize), y: (usize, usize), z: (usize, usize), signs: (bool, bool, bool)) -> (o:
    Octant)
    ensures
        o == (Octant {
            lo: GridCoord { x: x.0, y: y.0, z: z.0 },
            hi: GridCoord { x: x.1, y: y.1, z: z.1 },
            signs,
        }),
{
    Octant {
        lo: GridCoord { x: x.0, y: y.0, z: z.0 },
        hi: GridCoord { x: x.1, y: y.1, z: z.1 },
        signs,
    }
}

/// Whether the cube around `origin`, cut off at the borders of the grid,
/// holds the cell with the given index.
pub open spec fn cube_holds(
    dims: (int, int, int),
    origin: GridCoord,
    range: int,
    x: int,
    y: int,
    z: int,
) -> bool {
    &&& axis_lo(origin.x as int, range, dims.0) <= x < axis_hi(origin.x as int, range, dims.0)
    &&& axis_lo(origin.y as int, range, dims.1) <= y < axis_hi(origin.y as int, range, dims.1)
    &&& axis_lo(origin.z as int, range, dims.2) <= z < axis_hi(origin.z as int, range, dims.2)
}

/// The side of the origin on which an index lies.
pub open spec fn side_of(origin: int, len: int, i: int) -> bool {
    i >= axis_mid(origin, 0, len)
}

/// The eight octants cover the cube around the origin without gap or
/// overlap: a cell of the cube lies in the octant on its side of the origin
/// along each axis and in no other, and a cell outside the cube lies in none.
pub proof fn lemma_octants_partition(
    dims: (int, int, int),
    origin: GridCoord,
    range: int,
    x: int,
    y: int,
    z: int,
    signs: (bool, bool, bool),
)
    requires
        0 <= dims.0 <= usize::MAX,
        0 <= dims.1 <= usize::MAX,
        0 <= dims.2 <= usize::MAX,
        0 <= range,
    ensures
        octant_of(dims, origin, range, signs).wf(),
        octant_of(dims, origin, range, signs).holds(x, y, z) <==> cube_holds(
            dims,
            origin,
            range,
            x,
            y,
            z,
        ) && signs == (
            side_of(origin.x as int, dims.0, x),
            side_of(origin.y as int, dims.1, y),
            side_of(origin.z as int, dims.2, z),
        ),
{
}

/// With the origin in the corner `(0, 0, 0)` of the grid, every octant that
/// lies on the side of the smaller indices along some axis is empty, however
/// large the range.
pub proof fn lemma_corner_octants_empty(dims: (int, int, int), range: int, signs: (bool, bool, bool))
    requires
        0 <= dims.0 <= usize::MAX,
        0 <= dims.1 <= usize::MAX,
        0 <= dims.2 <= usize::MAX,
        0 <= range,
        !signs.0 || !signs.1 || !signs.2,
    ensures
        octant_of(dims, GridCoord { x: 0, y: 0, z: 0 }, range, signs).spec_is_empty(),
        octant_of(dims, GridCoord { x: 0, y: 0, z: 0 }, range, (true, true, true)) == (Octant {
            lo: GridCoord { x: 0, y: 0, z: 0 },
            hi: GridCoord {
                x: min_int(range, dims.0) as usize,
                y: min_int(range, dims.1) as usize,
                z: min_int(range, dims.2) as usize,
            },
            signs: (true, true, true),
        }),
{
}

} // verus!

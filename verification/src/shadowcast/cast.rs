//! A whole cast: the three scans of each of the eight octants.

use vstd::prelude::*;
use crate::geometry::point::{GridCoord, Point3};
use crate::shadowcast::octant::{
    octant_of,
    signs_of,
    split_shadowcast_octants,
    Octant,
    ScanView,
};
use crate::shadowcast::scan::{scan_recursive_shadowcast, scene_of, visits_of, Visit};
use crate::shadowcast::shape::LightShape;
use crate::util::LookupTables;
use crate::world::grid::{GridView, TileGrid};

verus! {

/// The visits of the scan of an octant along one of its axes: `shift` is the
/// axis that becomes the first axis of the scan.
pub open spec fn pass_visits(
    grid: GridView,
    octant: Octant,
    shift: usize,
    cast_range: usize,
    shape: LightShape,
    source: Point3,
) -> Seq<Visit> {
    let view = ScanView { octant, shift };
    visits_of(view, scene_of(grid, view, cast_range, shape, source).scan_visits())
}

/// The visits of the cast into one octant: nothing for an empty octant, else
/// one scan along each of the three axes in turn. A cell hidden in the scan
/// along one axis may be reached in the scan along another, so the cells
/// that the cast reaches are those that any of the three scans reaches.
pub open spec fn octant_visits(
    grid: GridView,
    octant: Octant,
    cast_range: usize,
    shape: LightShape,
    source: Point3,
) -> Seq<Visit> {
    if octant.spec_is_empty() {
        Seq::empty()
    } else {
        pass_visits(grid, octant, 0, cast_range, shape, source) + pass_visits(
            grid,
            octant,
            1,
            cast_range,
            shape,
            source,
        ) + pass_visits(grid, octant, 2, cast_range, shape, source)
    }
}

/// The visits of the cast into the first `n` octants around `origin`.
pub open spec fn octants_visits(
    grid: GridView,
    origin: GridCoord,
    cast_range: usize,
    shape: LightShape,
    source: Point3,
    n: int,
) -> Seq<Visit>
    decreases n,
{
    if n <= 0 {
        Seq::empty()
    } else {
        octants_visits(grid, origin, cast_range, shape, source, n - 1) + octant_visits(
            grid,
            octant_of(
                (grid.width as int, grid.height as int, grid.depth as int),
                origin,
                cast_range as int,
                signs_of(n - 1),
            ),
            cast_range,
            shape,
            source,
        )
    }
}

/// The visits of a whole cast around `origin`: those of its eight octants,
/// one octant after the other.
pub open spec fn cast_visits(
    grid: GridView,
    origin: GridCoord,
    cast_range: usize,
    shape: LightShape,
    source: Point3,
) -> Seq<Visit> {
    octants_visits(grid, origin, cast_range, shape, source, 8)
}

/// Whether an octant of a grid can be cast into with the given shape and
/// tables: it lies in the grid, the tables cover its extent, and the shape
/// can be cast in the grid.
pub open spec fn castable(grid: GridView, octant: Octant, shape: LightShape, max_range: nat) -> bool {
    &&& octant.within(grid)
    &&& octant.size().0 <= max_range
    &&& octant.size().1 <= max_range
    &&& octant.size().2 <= max_range
    &&& shape.in_reach(grid.width as int, grid.height as int, grid.depth as int)
}

/// Casts into one octant and returns the cells that are reached, in the
/// order of the visits: the octant is scanned three times, each time along
/// another axis. An empty octant is not scanned.
pub fn shadowcast_octant(
    grid: &TileGrid,
    octant: &Octant,
    cast_range: usize,
    shape: &LightShape,
    source_pos: Point3,
    tables: &LookupTables,
) -> (visits: Vec<Visit>)
    requires
        castable(grid@, *octant, *shape, tables.spec_max_range()),
    ensures
        visits@ == octant_visits(grid@, *octant, cast_range, *shape, source_pos),
{
    let mut visits: Vec<Visit> = Vec::new();
    if !octant.is_empty() {
        let mut i: usize = 0;
        while i < 3
            invariant
                castable(grid@, *octant, *shape, tables.spec_max_range()),
                !octant.spec_is_empty(),
                i <= 3,
                visits@ == if i == 0 {
                    Seq::<Visit>::empty()
                } else if i == 1 {
                    pass_visits(grid@, *octant, 0, cast_range, *shape, source_pos)
                } else if i == 2 {
                    pass_visits(grid@, *octant, 0, cast_range, *shape, source_pos) + pass_visits(
                        grid@,
                        *octant,
                        1,
                        cast_range,
                        *shape,
                        source_pos,
                    )
                } else {
                    octant_visits(grid@, *octant, cast_range, *shape, source_pos)
                },
            decreases 3 - i,
        {
            let permuted = ScanView { octant: *octant, shift: i };
            let mut pass = scan_recursive_shadowcast(
                grid,
                &permuted,
                cast_range,
                shape,
                source_pos,
                tables,
            );
            let ghost before = visits@;
            visits.append(&mut pass);
            proof {
                assert(before + Seq::<Visit>::empty() =~= before);
                assert(Seq::<Visit>::empty() + pass_visits(
                    grid@,
                    *octant,
                    0,
                    cast_range,
                    *shape,
                    source_pos,
                ) =~= pass_visits(grid@, *octant, 0, cast_range, *shape, source_pos));
            }
            i += 1;
        }
    }
    visits
}

/// Casts from `origin` as far as `cast_range` and returns the cells that are
/// reached, in the order of the visits: the cube around the origin is cut
/// into its eight octants, and each octant is cast into in turn.
pub fn cast(
    grid: &TileGrid,
    origin: GridCoord,
    cast_range: usize,
    shape: &LightShape,
    source_pos: Point3,
    tables: &LookupTables,
) -> (visits: Vec<Visit>)
    requires
        cast_range <= tables.spec_max_range(),
        shape.in_reach(grid@.width as int, grid@.height as int, grid@.depth as int),
    ensures
        visits@ == cast_visits(grid@, origin, cast_range, *shape, source_pos),
{
    let octs = split_shadowcast_octants(grid, origin, cast_range);
    let mut visits: Vec<Visit> = Vec::new();
    let mut k: usize = 0;
    while k < 8
        invariant
            cast_range <= tables.spec_max_range(),
            shape.in_reach(grid@.width as int, grid@.height as int, grid@.depth as int),
            k <= 8,
            forall|j: int|
                0 <= j < 8 ==> #[trigger] octs@[j] == octant_of(
                    (grid@.width as int, grid@.height as int, grid@.depth as int),
                    origin,
                    cast_range as int,
                    signs_of(j),
                ),
            forall|j: int| 0 <= j < 8 ==> (#[trigger] octs@[j]).within(grid@),
            visits@ == octants_visits(grid@, origin, cast_range, *shape, source_pos, k as int),
        decreases 8 - k,
    {
        let octant = octs[k];
        assert(octant == octs@[k as int]);
        let mut part = shadowcast_octant(grid, &octant, cast_range, shape, source_pos, tables);
        visits.append(&mut part);
        k += 1;
    }
    visits
}

/// Casts like `cast`, if the tables reach as far as `cast_range` and the
/// shape can be cast in the grid; `None` if not.
pub fn try_cast(
    grid: &TileGrid,
    origin: GridCoord,
    cast_range: usize,
    shape: &LightShape,
    source_pos: Point3,
    tables: &LookupTables,
) -> (r: Option<Vec<Visit>>)
    ensures
        r is Some <==> cast_range <= tables.spec_max_range() && shape.in_reach(
            grid@.width as int,
            grid@.height as int,
            grid@.depth as int,
        ),
        r matches Some(visits) ==> visits@ == cast_visits(
            grid@,
            origin,
            cast_range,
            *shape,
            source_pos,
        ),
{
    let (width, height, depth) = grid.dim();
    let in_reach = match shape {
        LightShape::Sphere => true,
        LightShape::Cone { .. } => width <= crate::shadowcast::shape::MAX_CONE_GRID && height
            <= crate::shadowcast::shape::MAX_CONE_GRID && depth
            <= crate::shadowcast::shape::MAX_CONE_GRID,
    };
    if cast_range <= tables.max_range() && in_reach {
        Some(cast(grid, origin, cast_range, shape, source_pos, tables))
    } else {
        None
    }
}

} // verus!

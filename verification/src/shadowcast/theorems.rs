//! What holds of whole casts: which cells they reach.

use vstd::prelude::*;
use crate::geometry::point::{GridCoord, Point3};
use crate::shadowcast::cast::{cast_visits, octant_visits, octants_visits, pass_visits};
use crate::shadowcast::coverage::lemma_open_scan_covers;
use crate::shadowcast::laws::lemma_scan_sound;
use crate::shadowcast::octant::{
    axis_mid,
    cube_holds,
    lemma_octants_partition,
    octant_of,
    side_of,
    signs_of,
    Octant,
    ScanView,
};
use crate::shadowcast::scan::{scene_of, visits_of, Visit};
use crate::shadowcast::shape::{lemma_closed_cone_is_empty, offset_of, LightShape, COS_ONE};
use crate::util::distance_squared;
use crate::world::grid::GridView;

verus! {

/// Whether one of the visits is a visit to the cell at `pos`.
pub open spec fn reached(visits: Seq<Visit>, pos: GridCoord) -> bool {
    exists|i: int| 0 <= i < visits.len() && (#[trigger] visits[i]).pos == pos
}

/// Whether every tile of the grid lets light pass.
pub open spec fn all_transparent(grid: GridView) -> bool {
    forall|x: int, y: int, z: int|
        grid.contains(x, y, z) ==> (#[trigger] grid.tile(x, y, z)).tile_type.transparent()
}

/// How many layers a cell lies from the origin along one axis. The origin's
/// own layer is layer 0 of the side with the larger indices; the layer before
/// it is layer 0 of the side with the smaller ones.
pub open spec fn axis_steps(origin: int, len: int, i: int) -> int {
    let mid = axis_mid(origin, 0, len);
    if i >= mid {
        i - mid
    } else {
        mid - 1 - i
    }
}

/// The square of the distance of a cell from the origin of a cast, in layers
/// counted outwards along each axis.
pub open spec fn steps_squared(dims: (int, int, int), origin: GridCoord, pos: GridCoord) -> int {
    distance_squared(
        axis_steps(origin.x as int, dims.0, pos.x as int),
        axis_steps(origin.y as int, dims.1, pos.y as int),
        axis_steps(origin.z as int, dims.2, pos.z as int),
    )
}

impl Octant {
    /// How far a cell of the octant lies from the corner of the octant next
    /// to the origin, along each axis.
    pub open spec fn local(self, pos: GridCoord) -> (int, int, int) {
        (
            if self.signs.0 {
                pos.x - self.lo.x
            } else {
                self.hi.x - 1 - pos.x
            },
            if self.signs.1 {
                pos.y - self.lo.y
            } else {
                self.hi.y - 1 - pos.y
            },
            if self.signs.2 {
                pos.z - self.lo.z
            } else {
                self.hi.z - 1 - pos.z
            },
        )
    }
}

/// The position in a scan with shifted axes of a position in the octant.
pub open spec fn shift_in(shift: int, l: (int, int, int)) -> (int, int, int) {
    if shift == 0 {
        (l.0, l.1, l.2)
    } else if shift == 1 {
        (l.1, l.2, l.0)
    } else {
        (l.2, l.0, l.1)
    }
}

/// A cell is reached by one of two runs of visits, one after the other, if
/// and only if one of the runs reaches it.
pub proof fn lemma_reached_either(a: Seq<Visit>, b: Seq<Visit>, pos: GridCoord)
    ensures
        reached(a + b, pos) <==> reached(a, pos) || reached(b, pos),
{
    if reached(a, pos) {
        let i = choose|i: int| 0 <= i < a.len() && (#[trigger] a[i]).pos == pos;
        assert((a + b)[i].pos == pos);
    }
    if reached(b, pos) {
        let i = choose|i: int| 0 <= i < b.len() && (#[trigger] b[i]).pos == pos;
        assert((a + b)[a.len() + i].pos == pos);
    }
    if reached(a + b, pos) {
        let i = choose|i: int| 0 <= i < (a + b).len() && (#[trigger] (a + b)[i]).pos == pos;
        if i < a.len() {
            assert(a[i].pos == pos);
        } else {
            assert(b[i - a.len()].pos == pos);
        }
    }
}

/// The scan of an octant along one axis reaches only cells of the octant
/// that lie nearer to its corner than the range of the cast, and in the
/// shape of the light.
pub proof fn lemma_pass_sound(
    grid: GridView,
    octant: Octant,
    shift: usize,
    cast_range: usize,
    shape: LightShape,
    source: Point3,
    pos: GridCoord,
)
    requires
        octant.wf(),
        !octant.spec_is_empty(),
        shift < 3,
        reached(pass_visits(grid, octant, shift, cast_range, shape, source), pos),
    ensures
        octant.holds(pos.x as int, pos.y as int, pos.z as int),
        distance_squared(octant.local(pos).0, octant.local(pos).1, octant.local(pos).2)
            < cast_range * cast_range,
        shape.spec_contains(offset_of(pos, source)),
{
    let view = ScanView { octant, shift };
    let s = scene_of(grid, view, cast_range, shape, source);
    let cells = s.scan_visits();
    let visits = pass_visits(grid, octant, shift, cast_range, shape, source);
    lemma_scan_sound(s);
    let i = choose|i: int| 0 <= i < visits.len() && (#[trigger] visits[i]).pos == pos;
    let c = cells[i];
    assert(visits[i] == view.visit_at(c));
    assert(s.sound(c));
    assert(distance_squared(c.0, c.1, c.2) == distance_squared(
        octant.local(pos).0,
        octant.local(pos).1,
        octant.local(pos).2,
    ));
}

/// Where every tile lets light pass, the scan of an octant along an axis
/// reaches every cell of the octant that lies nearer to its corner than the
/// range of the cast and no farther from it along the other two axes than
/// one layer more than along that axis.
pub proof fn lemma_open_pass_covers(
    grid: GridView,
    octant: Octant,
    shift: usize,
    cast_range: usize,
    source: Point3,
    pos: GridCoord,
)
    requires
        all_transparent(grid),
        octant.within(grid),
        shift < 3,
        octant.holds(pos.x as int, pos.y as int, pos.z as int),
        distance_squared(octant.local(pos).0, octant.local(pos).1, octant.local(pos).2)
            < cast_range * cast_range,
        shift_in(shift as int, octant.local(pos)).0 <= shift_in(shift as int, octant.local(pos)).2
            + 1,
        shift_in(shift as int, octant.local(pos)).1 <= shift_in(shift as int, octant.local(pos)).2
            + 1,
    ensures
        reached(pass_visits(grid, octant, shift, cast_range, LightShape::Sphere, source), pos),
{
    let view = ScanView { octant, shift };
    let s = scene_of(grid, view, cast_range, LightShape::Sphere, source);
    let t = shift_in(shift as int, octant.local(pos));
    assert forall|x: int, y: int, z: int| s.holds((x, y, z)) implies #[trigger] s.clear(x, y, z) by {
        let g = view.global((x, y, z));
        assert(grid.contains(g.0, g.1, g.2));
        assert(grid.tile(g.0, g.1, g.2).tile_type.transparent());
    }
    assert(s.holds(t));
    assert(distance_squared(t.0, t.1, t.2) == distance_squared(
        octant.local(pos).0,
        octant.local(pos).1,
        octant.local(pos).2,
    ));
    lemma_open_scan_covers(s, t);
    let cells = s.scan_visits();
    let i = choose|i: int| 0 <= i < cells.len() && cells[i] == t;
    let visits = visits_of(view, cells);
    assert(visits[i] == view.visit_at(t));
    assert(view.spec_cell(t) == pos);
}

/// The cast into an octant reaches a cell if and only if one of the three
/// scans of the octant reaches it: no cell is left out because of the axis
/// along which a scan runs.
pub proof fn lemma_octant_reaches_what_a_pass_reaches(
    grid: GridView,
    octant: Octant,
    cast_range: usize,
    shape: LightShape,
    source: Point3,
    pos: GridCoord,
)
    requires
        !octant.spec_is_empty(),
    ensures
        reached(octant_visits(grid, octant, cast_range, shape, source), pos) <==> (reached(
            pass_visits(grid, octant, 0, cast_range, shape, source),
            pos,
        ) || reached(pass_visits(grid, octant, 1, cast_range, shape, source), pos) || reached(
            pass_visits(grid, octant, 2, cast_range, shape, source),
            pos,
        )),
{
    let a = pass_visits(grid, octant, 0, cast_range, shape, source);
    let b = pass_visits(grid, octant, 1, cast_range, shape, source);
    let c = pass_visits(grid, octant, 2, cast_range, shape, source);
    lemma_reached_either(a, b, pos);
    lemma_reached_either(a + b, c, pos);
}

/// Where every tile lets light pass, the cast of a sphere into an octant
/// reaches exactly the cells of the octant that lie nearer to its corner
/// than the range of the cast.
pub proof fn lemma_open_octant_covered(
    grid: GridView,
    octant: Octant,
    cast_range: usize,
    source: Point3,
    pos: GridCoord,
)
    requires
        all_transparent(grid),
        octant.within(grid),
    ensures
        reached(octant_visits(grid, octant, cast_range, LightShape::Sphere, source), pos) <==> (
        octant.holds(pos.x as int, pos.y as int, pos.z as int) && distance_squared(
            octant.local(pos).0,
            octant.local(pos).1,
            octant.local(pos).2,
        ) < cast_range * cast_range),
{
    let shape = LightShape::Sphere;
    if octant.spec_is_empty() {
    } else {
        lemma_octant_reaches_what_a_pass_reaches(grid, octant, cast_range, shape, source, pos);
        if reached(pass_visits(grid, octant, 0, cast_range, shape, source), pos) {
            lemma_pass_sound(grid, octant, 0, cast_range, shape, source, pos);
        }
        if reached(pass_visits(grid, octant, 1, cast_range, shape, source), pos) {
            lemma_pass_sound(grid, octant, 1, cast_range, shape, source, pos);
        }
        if reached(pass_visits(grid, octant, 2, cast_range, shape, source), pos) {
            lemma_pass_sound(grid, octant, 2, cast_range, shape, source, pos);
        }
        let l = octant.local(pos);
        if octant.holds(pos.x as int, pos.y as int, pos.z as int) && distance_squared(l.0, l.1, l.2)
            < cast_range * cast_range {
            if l.2 >= l.0 && l.2 >= l.1 {
                lemma_open_pass_covers(grid, octant, 0, cast_range, source, pos);
            } else if l.0 >= l.1 {
                lemma_open_pass_covers(grid, octant, 1, cast_range, source, pos);
            } else {
                lemma_open_pass_covers(grid, octant, 2, cast_range, source, pos);
            }
        }
    }
}

/// Whether the cast into the `k`-th octant around `origin` reaches the cell
/// at `pos`.
#[verifier::opaque]
pub open spec fn octant_reaches(
    grid: GridView,
    origin: GridCoord,
    cast_range: usize,
    shape: LightShape,
    source: Point3,
    k: int,
    pos: GridCoord,
) -> bool {
    reached(
        octant_visits(
            grid,
            octant_of(
                (grid.width as int, grid.height as int, grid.depth as int),
                origin,
                cast_range as int,
                signs_of(k),
            ),
            cast_range,
            shape,
            source,
        ),
        pos,
    )
}

/// Whether the cast into one of the first `n` octants around `origin`
/// reaches the cell at `pos`.
pub open spec fn some_octant_reaches(
    grid: GridView,
    origin: GridCoord,
    cast_range: usize,
    shape: LightShape,
    source: Point3,
    n: int,
    pos: GridCoord,
) -> bool
    decreases n,
{
    n > 0 && (some_octant_reaches(grid, origin, cast_range, shape, source, n - 1, pos)
        || octant_reaches(grid, origin, cast_range, shape, source, n - 1, pos))
}

/// A cell is reached by the cast into the first `n` octants if and only if
/// the cast into one of them reaches it.
pub proof fn lemma_octants_reached(
    grid: GridView,
    origin: GridCoord,
    cast_range: usize,
    shape: LightShape,
    source: Point3,
    n: int,
    pos: GridCoord,
)
    requires
        0 <= n,
    ensures
        reached(octants_visits(grid, origin, cast_range, shape, source, n), pos)
            <==> some_octant_reaches(grid, origin, cast_range, shape, source, n, pos),
    decreases n,
{
    if n == 0 {
    } else {
        let before = octants_visits(grid, origin, cast_range, shape, source, n - 1);
        let part = octant_visits(
            grid,
            octant_of(
                (grid.width as int, grid.height as int, grid.depth as int),
                origin,
                cast_range as int,
                signs_of(n - 1),
            ),
            cast_range,
            shape,
            source,
        );
        lemma_octants_reached(grid, origin, cast_range, shape, source, n - 1, pos);
        lemma_reached_either(before, part, pos);
        reveal(octant_reaches);
    }
}

/// A cell is reached by a cast if and only if the cast into one of the
/// eight octants reaches it.
pub proof fn lemma_cast_reached(
    grid: GridView,
    origin: GridCoord,
    cast_range: usize,
    shape: LightShape,
    source: Point3,
    pos: GridCoord,
)
    ensures
        reached(cast_visits(grid, origin, cast_range, shape, source), pos) <==> (octant_reaches(
            grid,
            origin,
            cast_range,
            shape,
            source,
            0,
            pos,
        ) || octant_reaches(grid, origin, cast_range, shape, source, 1, pos) || octant_reaches(
            grid,
            origin,
            cast_range,
            shape,
            source,
            2,
            pos,
        ) || octant_reaches(grid, origin, cast_range, shape, source, 3, pos) || octant_reaches(
            grid,
            origin,
            cast_range,
            shape,
            source,
            4,
            pos,
        ) || octant_reaches(grid, origin, cast_range, shape, source, 5, pos) || octant_reaches(
            grid,
            origin,
            cast_range,
            shape,
            source,
            6,
            pos,
        ) || octant_reaches(grid, origin, cast_range, shape, source, 7, pos)),
{
    lemma_octants_reached(grid, origin, cast_range, shape, source, 8, pos);
    reveal_with_fuel(some_octant_reaches, 9);
}

/// Whether a cell lies in the cube around the origin of a cast, cut off at
/// the borders of the grid, and nearer to the origin than the range of the
/// cast, the distance counted in layers outwards along each axis.
pub open spec fn within_reach(
    dims: (int, int, int),
    origin: GridCoord,
    cast_range: usize,
    pos: GridCoord,
) -> bool {
    cube_holds(dims, origin, cast_range as int, pos.x as int, pos.y as int, pos.z as int)
        && steps_squared(dims, origin, pos) < cast_range * cast_range
}

/// The sides of the origin on which a cell lies, axis by axis.
pub open spec fn sides_of(dims: (int, int, int), origin: GridCoord, pos: GridCoord) -> (
    bool,
    bool,
    bool,
) {
    (
        side_of(origin.x as int, dims.0, pos.x as int),
        side_of(origin.y as int, dims.1, pos.y as int),
        side_of(origin.z as int, dims.2, pos.z as int),
    )
}

/// Where every tile lets light pass, the cast of a sphere into the `k`-th
/// octant reaches a cell if and only if the cell is within reach of the cast
/// and lies on the sides of the origin on which the octant lies.
proof fn lemma_open_octant_of_covered(
    grid: GridView,
    origin: GridCoord,
    cast_range: usize,
    source: Point3,
    k: int,
    pos: GridCoord,
)
    requires
        all_transparent(grid),
        grid.width <= usize::MAX,
        grid.height <= usize::MAX,
        grid.depth <= usize::MAX,
        0 <= k < 8,
    ensures
        octant_reaches(grid, origin, cast_range, LightShape::Sphere, source, k, pos) <==> (
        within_reach(
            (grid.width as int, grid.height as int, grid.depth as int),
            origin,
            cast_range,
            pos,
        ) && signs_of(k) == sides_of(
            (grid.width as int, grid.height as int, grid.depth as int),
            origin,
            pos,
        )),
{
    let dims = (grid.width as int, grid.height as int, grid.depth as int);
    let octant = octant_of(dims, origin, cast_range as int, signs_of(k));
    reveal(octant_reaches);
    lemma_octants_partition(
        dims,
        origin,
        cast_range as int,
        pos.x as int,
        pos.y as int,
        pos.z as int,
        signs_of(k),
    );
    lemma_open_octant_covered(grid, octant, cast_range, source, pos);
}

/// Each choice of sides is the choice of one of the eight octants.
proof fn lemma_signs_are_octants(signs: (bool, bool, bool))
    ensures
        signs_of(0) == signs || signs_of(1) == signs || signs_of(2) == signs || signs_of(3)
            == signs || signs_of(4) == signs || signs_of(5) == signs || signs_of(6) == signs
            || signs_of(7) == signs,
{
    assert(signs_of(0) == (false, false, false));
    assert(signs_of(1) == (false, false, true));
    assert(signs_of(2) == (false, true, false));
    assert(signs_of(3) == (false, true, true));
    assert(signs_of(4) == (true, false, false));
    assert(signs_of(5) == (true, false, true));
    assert(signs_of(6) == (true, true, false));
    assert(signs_of(7) == (true, true, true));
}

/// Coverage. Where every tile lets light pass, the cast of a sphere reaches
/// exactly the cells of the cube around the origin, cut off at the borders
/// of the grid, that lie nearer to the origin than the range of the cast:
/// no more, no fewer. The distance is counted in layers outwards from the
/// origin along each axis.
pub proof fn lemma_open_cast_covered(
    grid: GridView,
    origin: GridCoord,
    cast_range: usize,
    source: Point3,
    pos: GridCoord,
)
    requires
        all_transparent(grid),
        grid.width <= usize::MAX,
        grid.height <= usize::MAX,
        grid.depth <= usize::MAX,
    ensures
        reached(cast_visits(grid, origin, cast_range, LightShape::Sphere, source), pos)
            <==> within_reach(
            (grid.width as int, grid.height as int, grid.depth as int),
            origin,
            cast_range,
            pos,
        ),
{
    let dims = (grid.width as int, grid.height as int, grid.depth as int);
    let shape = LightShape::Sphere;
    let near = within_reach(dims, origin, cast_range, pos);
    let sides = sides_of(dims, origin, pos);
    let r0 = octant_reaches(grid, origin, cast_range, shape, source, 0, pos);
    let r1 = octant_reaches(grid, origin, cast_range, shape, source, 1, pos);
    let r2 = octant_reaches(grid, origin, cast_range, shape, source, 2, pos);
    let r3 = octant_reaches(grid, origin, cast_range, shape, source, 3, pos);
    let r4 = octant_reaches(grid, origin, cast_range, shape, source, 4, pos);
    let r5 = octant_reaches(grid, origin, cast_range, shape, source, 5, pos);
    let r6 = octant_reaches(grid, origin, cast_range, shape, source, 6, pos);
    let r7 = octant_reaches(grid, origin, cast_range, shape, source, 7, pos);
    assert(r0 <==> near && signs_of(0) == sides) by {
        lemma_open_octant_of_covered(grid, origin, cast_range, source, 0, pos);
    }
    assert(r1 <==> near && signs_of(1) == sides) by {
        lemma_open_octant_of_covered(grid, origin, cast_range, source, 1, pos);
    }
    assert(r2 <==> near && signs_of(2) == sides) by {
        lemma_open_octant_of_covered(grid, origin, cast_range, source, 2, pos);
    }
    assert(r3 <==> near && signs_of(3) == sides) by {
        lemma_open_octant_of_covered(grid, origin, cast_range, source, 3, pos);
    }
    assert(r4 <==> near && signs_of(4) == sides) by {
        lemma_open_octant_of_covered(grid, origin, cast_range, source, 4, pos);
    }
    assert(r5 <==> near && signs_of(5) == sides) by {
        lemma_open_octant_of_covered(grid, origin, cast_range, source, 5, pos);
    }
    assert(r6 <==> near && signs_of(6) == sides) by {
        lemma_open_octant_of_covered(grid, origin, cast_range, source, 6, pos);
    }
    assert(r7 <==> near && signs_of(7) == sides) by {
        lemma_open_octant_of_covered(grid, origin, cast_range, source, 7, pos);
    }
    assert(reached(cast_visits(grid, origin, cast_range, shape, source), pos) <==> (r0 || r1 || r2
        || r3 || r4 || r5 || r6 || r7)) by {
        lemma_cast_reached(grid, origin, cast_range, shape, source, pos);
    }
    assert(signs_of(0) == sides || signs_of(1) == sides || signs_of(2) == sides || signs_of(3)
        == sides || signs_of(4) == sides || signs_of(5) == sides || signs_of(6) == sides
        || signs_of(7) == sides) by {
        lemma_signs_are_octants(sides);
    }
}

/// On the side of the larger indices the layers are the distance: for a
/// cell that lies at or behind an origin inside the grid along every axis,
/// the distance in layers is the distance between the two cells.
pub proof fn lemma_steps_ahead_are_distance(dims: (int, int, int), origin: GridCoord, pos: GridCoord)
    requires
        origin.x < dims.0,
        origin.y < dims.1,
        origin.z < dims.2,
        origin.x <= pos.x,
        origin.y <= pos.y,
        origin.z <= pos.z,
    ensures
        steps_squared(dims, origin, pos) == distance_squared(
            pos.x - origin.x,
            pos.y - origin.y,
            pos.z - origin.z,
        ),
{
}

/// A cone whose half angle is zero lights nothing: a cast of it reaches no
/// cell.
pub proof fn lemma_closed_cone_reaches_nothing(
    grid: GridView,
    octant: Octant,
    shift: usize,
    cast_range: usize,
    shape: LightShape,
    source: Point3,
    pos: GridCoord,
)
    requires
        octant.wf(),
        !octant.spec_is_empty(),
        shift < 3,
        shape matches LightShape::Cone { width_cos, .. } && width_cos >= COS_ONE,
    ensures
        !reached(pass_visits(grid, octant, shift, cast_range, shape, source), pos),
{
    if reached(pass_visits(grid, octant, shift, cast_range, shape, source), pos) {
        lemma_pass_sound(grid, octant, shift, cast_range, shape, source, pos);
        match shape {
            LightShape::Cone { facing, width_cos } => {
                lemma_closed_cone_is_empty(facing, width_cos, offset_of(pos, source));
            },
            LightShape::Sphere => {},
        }
    }
}

/// A cone whose half angle is zero lights nothing: a whole cast of it
/// reaches no cell, whatever lies in range and in sight.
pub proof fn lemma_closed_cone_cast_reaches_nothing(
    grid: GridView,
    origin: GridCoord,
    cast_range: usize,
    shape: LightShape,
    source: Point3,
    pos: GridCoord,
)
    requires
        grid.width <= usize::MAX,
        grid.height <= usize::MAX,
        grid.depth <= usize::MAX,
        shape matches LightShape::Cone { width_cos, .. } && width_cos >= COS_ONE,
    ensures
        !reached(cast_visits(grid, origin, cast_range, shape, source), pos),
{
    lemma_cast_reached(grid, origin, cast_range, shape, source, pos);
    lemma_closed_cone_octant(grid, origin, cast_range, shape, source, 0, pos);
    lemma_closed_cone_octant(grid, origin, cast_range, shape, source, 1, pos);
    lemma_closed_cone_octant(grid, origin, cast_range, shape, source, 2, pos);
    lemma_closed_cone_octant(grid, origin, cast_range, shape, source, 3, pos);
    lemma_closed_cone_octant(grid, origin, cast_range, shape, source, 4, pos);
    lemma_closed_cone_octant(grid, origin, cast_range, shape, source, 5, pos);
    lemma_closed_cone_octant(grid, origin, cast_range, shape, source, 6, pos);
    lemma_closed_cone_octant(grid, origin, cast_range, shape, source, 7, pos);
}

/// The cast of a cone whose half angle is zero into one octant reaches no
/// cell.
proof fn lemma_closed_cone_octant(
    grid: GridView,
    origin: GridCoord,
    cast_range: usize,
    shape: LightShape,
    source: Point3,
    k: int,
    pos: GridCoord,
)
    requires
        grid.width <= usize::MAX,
        grid.height <= usize::MAX,
        grid.depth <= usize::MAX,
        shape matches LightShape::Cone { width_cos, .. } && width_cos >= COS_ONE,
    ensures
        !octant_reaches(grid, origin, cast_range, shape, source, k, pos),
{
    reveal(octant_reaches);
    let dims = (grid.width as int, grid.height as int, grid.depth as int);
    let octant = octant_of(dims, origin, cast_range as int, signs_of(k));
    lemma_octants_partition(dims, origin, cast_range as int, 0, 0, 0, signs_of(k));
    if !octant.spec_is_empty() {
        lemma_octant_reaches_what_a_pass_reaches(grid, octant, cast_range, shape, source, pos);
        lemma_closed_cone_reaches_nothing(grid, octant, 0, cast_range, shape, source, pos);
        lemma_closed_cone_reaches_nothing(grid, octant, 1, cast_range, shape, source, pos);
        lemma_closed_cone_reaches_nothing(grid, octant, 2, cast_range, shape, source, pos);
    }
}

/// Whether two grids have the same extent and, in every cell, the same
/// material; the light on the tiles may differ.
pub open spec fn same_materials(a: GridView, b: GridView) -> bool {
    &&& a.width == b.width
    &&& a.height == b.height
    &&& a.depth == b.depth
    &&& forall|x: int, y: int, z: int| #[trigger]
        a.contains(x, y, z) ==> a.tile(x, y, z).tile_type == b.tile(x, y, z).tile_type
}

/// The scan of an octant along an axis visits the same cells in the same
/// order in two grids of the same materials.
pub proof fn lemma_pass_ignores_light(
    a: GridView,
    b: GridView,
    octant: Octant,
    shift: usize,
    cast_range: usize,
    shape: LightShape,
    source: Point3,
)
    requires
        same_materials(a, b),
        octant.within(a),
        !octant.spec_is_empty(),
        shift < 3,
    ensures
        pass_visits(a, octant, shift, cast_range, shape, source) == pass_visits(
            b,
            octant,
            shift,
            cast_range,
            shape,
            source,
        ),
{
    let view = ScanView { octant, shift };
    let sa = scene_of(a, view, cast_range, shape, source);
    let sb = scene_of(b, view, cast_range, shape, source);
    assert forall|x: int, y: int, z: int| #[trigger] sa.holds((x, y, z)) implies (sa.lit)(x, y, z)
        == (sb.lit)(x, y, z) && (sa.open)(x, y, z) == (sb.open)(x, y, z) by {
        let g = view.global((x, y, z));
        assert(a.contains(g.0, g.1, g.2));
    }
    crate::shadowcast::laws::lemma_wedge_agrees(sa, sb, crate::shadowcast::scan::Shadowcast::root());
}

/// A cast reads nothing but the materials: in two grids of the same
/// materials it visits the same cells in the same order. So a cast made
/// again after a visitor has changed the light on the tiles, or has changed
/// nothing, comes out as before.
pub proof fn lemma_cast_ignores_light(
    a: GridView,
    b: GridView,
    origin: GridCoord,
    cast_range: usize,
    shape: LightShape,
    source: Point3,
)
    requires
        same_materials(a, b),
        a.width <= usize::MAX,
        a.height <= usize::MAX,
        a.depth <= usize::MAX,
    ensures
        cast_visits(a, origin, cast_range, shape, source) == cast_visits(
            b,
            origin,
            cast_range,
            shape,
            source,
        ),
{
    lemma_octants_ignore_light(a, b, origin, cast_range, shape, source, 8);
}

/// The cast into the first `n` octants visits the same cells in the same
/// order in two grids of the same materials.
proof fn lemma_octants_ignore_light(
    a: GridView,
    b: GridView,
    origin: GridCoord,
    cast_range: usize,
    shape: LightShape,
    source: Point3,
    n: int,
)
    requires
        same_materials(a, b),
        a.width <= usize::MAX,
        a.height <= usize::MAX,
        a.depth <= usize::MAX,
    ensures
        octants_visits(a, origin, cast_range, shape, source, n) == octants_visits(
            b,
            origin,
            cast_range,
            shape,
            source,
            n,
        ),
    decreases n,
{
    if n <= 0 {
    } else {
        lemma_octants_ignore_light(a, b, origin, cast_range, shape, source, n - 1);
        let dims = (a.width as int, a.height as int, a.depth as int);
        let octant = octant_of(dims, origin, cast_range as int, signs_of(n - 1));
        lemma_octants_partition(dims, origin, cast_range as int, 0, 0, 0, signs_of(n - 1));
        assert(octant.within(a));
        if !octant.spec_is_empty() {
            lemma_pass_ignores_light(a, b, octant, 0, cast_range, shape, source);
            lemma_pass_ignores_light(a, b, octant, 1, cast_range, shape, source);
            lemma_pass_ignores_light(a, b, octant, 2, cast_range, shape, source);
        }
    }
}

/// Whether a visit is a visit to a cell of the grid, fewer layers than the
/// range of the cast from the origin along each axis.
pub open spec fn visit_valid(grid: GridView, cast_range: usize, v: Visit) -> bool {
    &&& grid.contains(v.pos.x as int, v.pos.y as int, v.pos.z as int)
    &&& v.offset.0 < cast_range
    &&& v.offset.1 < cast_range
    &&& v.offset.2 < cast_range
}

/// Whether every visit of a sequence is valid.
pub open spec fn visits_valid(grid: GridView, cast_range: usize, visits: Seq<Visit>) -> bool {
    forall|i: int| 0 <= i < visits.len() ==> visit_valid(grid, cast_range, #[trigger] visits[i])
}

/// Every visit of the scan of an octant is a visit to a cell of the grid
/// within the range.
pub proof fn lemma_pass_visits_valid(
    grid: GridView,
    octant: Octant,
    shift: usize,
    cast_range: usize,
    shape: LightShape,
    source: Point3,
)
    requires
        octant.within(grid),
        !octant.spec_is_empty(),
        shift < 3,
        octant.size().0 <= cast_range,
        octant.size().1 <= cast_range,
        octant.size().2 <= cast_range,
    ensures
        visits_valid(grid, cast_range, pass_visits(grid, octant, shift, cast_range, shape, source)),
{
    let view = ScanView { octant, shift };
    let s = scene_of(grid, view, cast_range, shape, source);
    let cells = s.scan_visits();
    let visits = pass_visits(grid, octant, shift, cast_range, shape, source);
    lemma_scan_sound(s);
    assert forall|i: int| 0 <= i < visits.len() implies visit_valid(
        grid,
        cast_range,
        #[trigger] visits[i],
    ) by {
        let c = cells[i];
        assert(visits[i] == view.visit_at(c));
        assert(s.sound(c));
    }
}

/// Every visit of the cast into the first `n` octants is a visit to a cell
/// of the grid within the range.
pub proof fn lemma_octants_visits_valid(
    grid: GridView,
    origin: GridCoord,
    cast_range: usize,
    shape: LightShape,
    source: Point3,
    n: int,
)
    requires
        grid.width <= usize::MAX,
        grid.height <= usize::MAX,
        grid.depth <= usize::MAX,
    ensures
        visits_valid(grid, cast_range, octants_visits(grid, origin, cast_range, shape, source, n)),
    decreases n,
{
    if n <= 0 {
    } else {
        lemma_octants_visits_valid(grid, origin, cast_range, shape, source, n - 1);
        let dims = (grid.width as int, grid.height as int, grid.depth as int);
        let octant = octant_of(dims, origin, cast_range as int, signs_of(n - 1));
        lemma_octants_partition(dims, origin, cast_range as int, 0, 0, 0, signs_of(n - 1));
        let before = octants_visits(grid, origin, cast_range, shape, source, n - 1);
        let part = octant_visits(grid, octant, cast_range, shape, source);
        if !octant.spec_is_empty() {
            lemma_pass_visits_valid(grid, octant, 0, cast_range, shape, source);
            lemma_pass_visits_valid(grid, octant, 1, cast_range, shape, source);
            lemma_pass_visits_valid(grid, octant, 2, cast_range, shape, source);
        }
        assert forall|i: int| 0 <= i < (before + part).len() implies visit_valid(
            grid,
            cast_range,
            #[trigger] (before + part)[i],
        ) by {
            if i < before.len() {
                assert((before + part)[i] == before[i]);
            } else {
                let j = i - before.len();
                assert((before + part)[i] == part[j]);
                let a = pass_visits(grid, octant, 0, cast_range, shape, source);
                let b = pass_visits(grid, octant, 1, cast_range, shape, source);
                let c = pass_visits(grid, octant, 2, cast_range, shape, source);
                if j < a.len() {
                    assert(part[j] == a[j]);
                } else if j < a.len() + b.len() {
                    assert(part[j] == b[j - a.len()]);
                } else {
                    assert(part[j] == c[j - a.len() - b.len()]);
                }
            }
        }
    }
}

/// Every visit of a cast is a visit to a cell of the grid, fewer layers than
/// the range of the cast from the origin along each axis.
pub proof fn lemma_cast_visits_valid(
    grid: GridView,
    origin: GridCoord,
    cast_range: usize,
    shape: LightShape,
    source: Point3,
)
    requires
        grid.width <= usize::MAX,
        grid.height <= usize::MAX,
        grid.depth <= usize::MAX,
    ensures
        visits_valid(grid, cast_range, cast_visits(grid, origin, cast_range, shape, source)),
{
    lemma_octants_visits_valid(grid, origin, cast_range, shape, source, 8);
}

} // verus!

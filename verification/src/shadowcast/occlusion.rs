//! What a scan is sure not to reach: the cells straight behind a blocking
//! cell on an axis.

use vstd::prelude::*;
use vstd::arithmetic::div_mod::*;
use crate::geometry::point::{GridCoord, Point3};
use crate::shadowcast::cast::{cast_visits, octant_visits, pass_visits};
use crate::shadowcast::laws::lemma_floor_at_nonnegative;
use crate::shadowcast::octant::{lemma_octants_partition, octant_of, signs_of, Octant, ScanView};
use crate::shadowcast::scan::{lemma_scan_frame_pushes, scene_of, ScanState, Scene, Shadowcast};
use crate::shadowcast::shape::LightShape;
use crate::shadowcast::slope::{lemma_floor_next_slice, Slope};
use crate::shadowcast::theorems::{
    lemma_cast_reached,
    lemma_octant_reaches_what_a_pass_reaches,
    lemma_pass_sound,
    octant_reaches,
    reached,
    shift_in,
};
use crate::world::grid::GridView;

verus! {

impl Scene {
    /// Whether the wedge leaves out the first column or the first row of its
    /// slice, and so the cell on the depth axis.
    pub open spec fn off_axis(self, f: Shadowcast) -> bool {
        f.left_angle.floor_at(f.z as int) >= 1 || f.top_angle.floor_at(f.z as int) >= 1
    }

    /// Whether the wedge `g` of the next slice begins, in a way that shows in
    /// its boundaries, behind the first column or the first row of the wedge
    /// `f`.
    pub open spec fn child_off_axis(self, f: Shadowcast, g: Shadowcast) -> bool {
        ||| (g.left_angle == f.left_angle && f.left_angle.floor_at(f.z as int) >= 1)
        ||| (g.left_angle.den == f.z + 1 && g.left_angle.num >= 1)
        ||| (g.top_angle == f.top_angle && f.top_angle.floor_at(f.z as int) >= 1)
        ||| (g.top_angle.den == f.z + 1 && g.top_angle.num >= 1)
    }

    /// Whether the cell on the depth axis in the slice of the wedge stops the
    /// scan: it is out of range, or it is not clear.
    pub open spec fn axis_blocked(self, z: int) -> bool {
        !(self.in_range(0, 0, z) && self.clear(0, 0, z))
    }

    /// What holds of the state of the scan of a wedge that leaves out the
    /// cell on the depth axis or finds it blocking: no run began in that
    /// cell, and every wedge pushed begins behind the first column or row.
    pub open spec fn keeps_off_axis(self, f: Shadowcast, st: ScanState, y: int) -> bool {
        &&& st.last_left matches Some(first) ==> self.left(f) <= first < self.width && (first >= 1
            || y >= 1)
        &&& st.last_top matches Some(first) ==> self.top(f) <= first < self.height && (first >= 1
            || f.left_angle.floor_at(f.z as int) >= 1)
        &&& forall|i: int|
            0 <= i < st.pushes.len() ==> self.child_off_axis(f, #[trigger] st.pushes[i])
    }

    /// Whether every cell of a sequence lies off the depth axis or in a slice
    /// other than the one at depth `m`.
    pub open spec fn all_miss(self, cells: Seq<(int, int, int)>, m: int) -> bool {
        forall|i: int| 0 <= i < cells.len() ==> (#[trigger] cells[i]) != (0int, 0int, m)
    }

    /// Whether every cell of a sequence lies in the slice at depth `z`, from
    /// the first column and the first row of the wedge on.
    pub open spec fn all_in_wedge(self, f: Shadowcast, cells: Seq<(int, int, int)>) -> bool {
        forall|i: int|
            0 <= i < cells.len() ==> (#[trigger] cells[i]).2 == f.z && cells[i].0 >= self.left(f)
                && cells[i].1 >= self.top(f)
    }
}

/// A boundary touches, one slice further out, no cell nearer than in this
/// slice.
proof fn lemma_floor_at_grows(a: Slope, z: int)
    requires
        a.wf(),
        0 <= z,
    ensures
        a.floor_at(z) <= a.floor_at(z + 1),
{
    assert((z + 1) * a.num <= (z + 2) * a.num) by (nonlinear_arith)
        requires
            0 <= a.num,
    ;
    lemma_div_is_ordered((z + 1) * a.num, (z + 2) * a.num, a.den as int);
}

/// A wedge that begins behind the first column or row of the wedge that
/// pushed it leaves out the cell on the depth axis.
proof fn lemma_child_off_axis(s: Scene, f: Shadowcast, g: Shadowcast)
    requires
        f.wf(),
        g.wf(),
        g.z == f.z + 1,
        s.child_off_axis(f, g),
    ensures
        s.off_axis(g),
{
    let z = f.z as int;
    if g.left_angle == f.left_angle && f.left_angle.floor_at(z) >= 1 {
        lemma_floor_at_grows(f.left_angle, z);
    } else if g.left_angle.den == z + 1 && g.left_angle.num >= 1 {
        assert(g.left_angle == Slope::of_cell(g.left_angle.num as int, z));
        lemma_floor_next_slice(g.left_angle.num as int, z);
    } else if g.top_angle == f.top_angle && f.top_angle.floor_at(z) >= 1 {
        lemma_floor_at_grows(f.top_angle, z);
    } else {
        assert(g.top_angle == Slope::of_cell(g.top_angle.num as int, z));
        lemma_floor_next_slice(g.top_angle.num as int, z);
    }
}

/// The scan of one cell keeps the state off the axis.
proof fn lemma_step_cell_off_axis(s: Scene, f: Shadowcast, y: int, x: int, st: ScanState)
    requires
        s.wf(),
        f.wf(),
        s.off_axis(f) || s.axis_blocked(f.z as int),
        s.left(f) <= x < s.width,
        s.top(f) <= y < s.height,
        0 <= x,
        0 <= y,
        f.z < s.depth,
        s.keeps_off_axis(f, st, y),
        s.all_in_wedge(f, st.visits),
    ensures
        s.keeps_off_axis(f, s.step_cell(f, y, x, st), y),
        s.all_in_wedge(f, s.step_cell(f, y, x, st).visits),
{
    let next = s.step_cell(f, y, x, st);
    let z = f.z as int;
    assert(s.all_in_wedge(f, next.visits)) by {
        assert forall|i: int| 0 <= i < next.visits.len() implies (#[trigger] next.visits[i]).2 == f.z
            && next.visits[i].0 >= s.left(f) && next.visits[i].1 >= s.top(f) by {
            if i < st.visits.len() {
                assert(next.visits[i] == st.visits[i]);
            }
        }
    }
    if s.recurses(f) {
        if st.last_top is Some {
            assert(s.child_off_axis(f, f.rows_child(st.last_top->Some_0, y)));
        }
        if st.last_left is Some {
            assert(s.child_off_axis(f, f.run_child(st.last_left->Some_0, x, y)));
        }
    }
    assert forall|i: int| 0 <= i < next.pushes.len() implies s.child_off_axis(
        f,
        #[trigger] next.pushes[i],
    ) by {
        if i < st.pushes.len() {
            assert(next.pushes[i] == st.pushes[i]);
        }
    }
}

/// The scan of the cells of a row keeps the state off the axis.
proof fn lemma_scan_cells_off_axis(s: Scene, f: Shadowcast, y: int, x: int, st: ScanState)
    requires
        s.wf(),
        f.wf(),
        s.off_axis(f) || s.axis_blocked(f.z as int),
        s.left(f) <= x,
        s.top(f) <= y < s.height,
        0 <= x,
        0 <= y,
        f.z < s.depth,
        s.keeps_off_axis(f, st, y),
        s.all_in_wedge(f, st.visits),
    ensures
        s.keeps_off_axis(f, s.scan_cells(f, y, x, st), y),
        s.all_in_wedge(f, s.scan_cells(f, y, x, st).visits),
    decreases s.right(f) + 1 - x,
{
    if x > s.right(f) || st.cut {
    } else {
        lemma_step_cell_off_axis(s, f, y, x, st);
        lemma_scan_cells_off_axis(s, f, y, x + 1, s.step_cell(f, y, x, st));
    }
}

/// The scan of the rows of a wedge keeps the state off the axis.
proof fn lemma_scan_rows_off_axis(s: Scene, f: Shadowcast, y: int, st: ScanState)
    requires
        s.wf(),
        f.wf(),
        s.off_axis(f) || s.axis_blocked(f.z as int),
        s.top(f) <= y,
        0 <= y,
        f.z < s.depth,
        st.last_left is None,
        s.keeps_off_axis(f, st, y),
        s.all_in_wedge(f, st.visits),
    ensures
        s.keeps_off_axis(f, s.scan_rows(f, y, st), s.height as int),
        s.all_in_wedge(f, s.scan_rows(f, y, st).visits),
    decreases s.bottom(f) + 1 - y,
{
    if y > s.bottom(f) {
    } else {
        lemma_floor_at_nonnegative(f.left_angle, f.z as int);
        let cells = s.scan_cells(f, y, s.left(f), st);
        lemma_scan_cells_off_axis(s, f, y, s.left(f), st);
        let end = s.end_row(f, y, cells);
        if s.recurses(f) {
            if cells.last_left is Some {
                assert(s.child_off_axis(f, f.tail_child(cells.last_left->Some_0, y)));
            }
        }
        assert forall|i: int| 0 <= i < end.pushes.len() implies s.child_off_axis(
            f,
            #[trigger] end.pushes[i],
        ) by {
            if i < cells.pushes.len() {
                assert(end.pushes[i] == cells.pushes[i]);
            }
        }
        lemma_scan_rows_off_axis(s, f, y + 1, end);
    }
}

/// The scan of a wedge that leaves out the cell on the depth axis, or finds
/// it blocking, pushes only wedges that leave out the cell on the depth
/// axis; and it visits only cells of its own slice, from its first column
/// and row on.
pub proof fn lemma_scan_frame_off_axis(s: Scene, f: Shadowcast)
    requires
        s.wf(),
        f.wf(),
        f.z < s.depth,
        s.off_axis(f) || s.axis_blocked(f.z as int),
    ensures
        forall|i: int|
            0 <= i < s.scan_frame(f).pushes.len() ==> s.off_axis(#[trigger] s.scan_frame(f).pushes[i]),
        s.all_in_wedge(f, s.scan_frame(f).visits),
{
    lemma_floor_at_nonnegative(f.top_angle, f.z as int);
    let start = ScanState::start();
    let rows = s.scan_rows(f, s.top(f), start);
    lemma_scan_rows_off_axis(s, f, s.top(f), start);
    let end = s.finish(f, rows);
    lemma_scan_frame_pushes(s, f);
    if s.recurses(f) {
        if rows.last_top is Some {
            let first = rows.last_top->Some_0;
            if first == s.top(f) {
                assert(s.child_off_axis(f, f.full_child()));
            } else {
                assert(s.child_off_axis(f, f.trailing_child(first)));
            }
        }
    }
    assert forall|i: int| 0 <= i < end.pushes.len() implies s.off_axis(#[trigger] end.pushes[i]) by {
        if i < rows.pushes.len() {
            assert(end.pushes[i] == rows.pushes[i]);
        }
        assert(s.child_off_axis(f, end.pushes[i]));
        assert(s.child_ok(f, end.pushes[i]));
        lemma_child_off_axis(s, f, end.pushes[i]);
    }
}

impl Scene {
    /// Whether every cell of a sequence lies in the slice of the wedge `f`,
    /// no farther out than its last column and row.
    pub open spec fn all_in_slice(self, f: Shadowcast, cells: Seq<(int, int, int)>) -> bool {
        forall|i: int|
            0 <= i < cells.len() ==> (#[trigger] cells[i]).2 == f.z && cells[i].0 <= self.right(f)
                && cells[i].1 <= self.bottom(f)
    }

    /// Whether every cell of a sequence lies at depth `z` or deeper, and
    /// those at depth 0 in the first two columns and rows.
    pub open spec fn all_behind(self, cells: Seq<(int, int, int)>, z: int) -> bool {
        forall|i: int|
            0 <= i < cells.len() ==> (#[trigger] cells[i]).2 >= z && (cells[i].2 == 0
                ==> cells[i].0 <= 1 && cells[i].1 <= 1)
    }
}

/// The scan of the cells of a row visits only cells of the slice of the
/// wedge, up to its last column.
proof fn lemma_cells_in_slice(s: Scene, f: Shadowcast, y: int, x: int, st: ScanState)
    requires
        y <= s.bottom(f),
        s.all_in_slice(f, st.visits),
    ensures
        s.all_in_slice(f, s.scan_cells(f, y, x, st).visits),
    decreases s.right(f) + 1 - x,
{
    if x > s.right(f) || st.cut {
    } else {
        let next = s.step_cell(f, y, x, st);
        assert forall|i: int| 0 <= i < next.visits.len() implies (#[trigger] next.visits[i]).2
            == f.z && next.visits[i].0 <= s.right(f) && next.visits[i].1 <= s.bottom(f) by {
            if i < st.visits.len() {
                assert(next.visits[i] == st.visits[i]);
            }
        }
        lemma_cells_in_slice(s, f, y, x + 1, next);
    }
}

/// The scan of the rows of a wedge visits only cells of the slice of the
/// wedge, up to its last column and row.
proof fn lemma_rows_in_slice(s: Scene, f: Shadowcast, y: int, st: ScanState)
    requires
        s.all_in_slice(f, st.visits),
    ensures
        s.all_in_slice(f, s.scan_rows(f, y, st).visits),
    decreases s.bottom(f) + 1 - y,
{
    if y > s.bottom(f) {
    } else {
        lemma_cells_in_slice(s, f, y, s.left(f), st);
        lemma_rows_in_slice(s, f, y + 1, s.end_row(f, y, s.scan_cells(f, y, s.left(f), st)));
    }
}

/// A scan visits in a slice only cells of the wedges of that slice.
pub proof fn lemma_scan_frame_in_wedge(s: Scene, f: Shadowcast)
    ensures
        s.all_in_slice(f, s.scan_frame(f).visits),
{
    lemma_rows_in_slice(s, f, s.top(f), ScanState::start());
}

/// The scan of a wedge visits no cell of a slice before its own, and in the
/// slice at depth 0 only cells of the first two columns and rows.
pub proof fn lemma_wedge_behind(s: Scene, f: Shadowcast)
    requires
        s.wf(),
        f.wf(),
        f.z == 0 ==> f == Shadowcast::root(),
    ensures
        s.all_behind(s.wedge_visits(f), f.z as int),
    decreases s.depth - f.z, 0int, 0int,
{
    if f.z >= s.depth {
    } else {
        let own = s.scan_frame(f);
        lemma_scan_frame_pushes(s, f);
        lemma_scan_frame_in_wedge(s, f);
        lemma_children_behind(s, own.pushes, f.z + 1);
        let rest = s.children_visits(own.pushes, f.z + 1);
        if f.z == 0 {
            assert(Slope::diagonal().ceil_at(0) == 1);
        }
        assert forall|i: int| 0 <= i < (own.visits + rest).len() implies (#[trigger] (own.visits
            + rest)[i]).2 >= f.z && ((own.visits + rest)[i].2 == 0 ==> (own.visits + rest)[i].0 <= 1
            && (own.visits + rest)[i].1 <= 1) by {
            if i < own.visits.len() {
                assert((own.visits + rest)[i] == own.visits[i]);
            } else {
                assert((own.visits + rest)[i] == rest[i - own.visits.len()]);
            }
        }
    }
}

/// The scans of wedges pushed for the slice at depth `z`, which is not the
/// first, visit no cell of a slice before it.
proof fn lemma_children_behind(s: Scene, cs: Seq<Shadowcast>, z: int)
    requires
        s.wf(),
        z >= 1,
        forall|i: int| 0 <= i < cs.len() ==> (#[trigger] cs[i]).wf(),
    ensures
        s.all_behind(s.children_visits(cs, z), z),
    decreases s.depth - z, 1int, cs.len(),
{
    if cs.len() == 0 {
    } else {
        let init = cs.drop_last();
        assert forall|i: int| 0 <= i < init.len() implies (#[trigger] init[i]).wf() by {
            assert(init[i] == cs[i]);
        }
        lemma_children_behind(s, init, z);
        let rest = s.children_visits(init, z);
        if cs.last().z == z {
            lemma_wedge_behind(s, cs.last());
            let own = s.wedge_visits(cs.last());
            assert forall|i: int| 0 <= i < (own + rest).len() implies (#[trigger] (own + rest)[i]).2
                >= z && ((own + rest)[i].2 == 0 ==> (own + rest)[i].0 <= 1 && (own + rest)[i].1
                <= 1) by {
                if i < own.len() {
                    assert((own + rest)[i] == own[i]);
                } else {
                    assert((own + rest)[i] == rest[i - own.len()]);
                }
            }
        }
    }
}

/// Behind a blocking cell on the depth axis, the scan of a wedge visits no
/// cell on the depth axis: not the wedge that finds the cell, nor one in a
/// slice before it, nor one that leaves out the axis.
pub proof fn lemma_wedge_misses_axis(s: Scene, f: Shadowcast, k: int, m: int)
    requires
        s.wf(),
        f.wf(),
        0 <= k < m,
        s.axis_blocked(k),
        f.z <= k || s.off_axis(f),
    ensures
        s.all_miss(s.wedge_visits(f), m),
    decreases s.depth - f.z, 0int, 0int,
{
    if f.z >= s.depth {
    } else {
        let own = s.scan_frame(f);
        lemma_scan_frame_pushes(s, f);
        lemma_scan_frame_in_wedge(s, f);
        assert forall|i: int| 0 <= i < own.visits.len() implies (#[trigger] own.visits[i]).2
            == f.z by {}
        if f.z >= k {
            lemma_scan_frame_off_axis(s, f);
            if f.z == m {
                lemma_floor_at_nonnegative(f.left_angle, f.z as int);
                lemma_floor_at_nonnegative(f.top_angle, f.z as int);
            }
        }
        assert(s.all_miss(own.visits, m));
        lemma_children_miss_axis(s, own.pushes, f.z + 1, k, m);
        let rest = s.children_visits(own.pushes, f.z + 1);
        assert forall|i: int| 0 <= i < (own.visits + rest).len() implies (#[trigger] (own.visits
            + rest)[i]) != (0int, 0int, m) by {
            if i < own.visits.len() {
                assert((own.visits + rest)[i] == own.visits[i]);
            } else {
                assert((own.visits + rest)[i] == rest[i - own.visits.len()]);
            }
        }
    }
}

/// Behind a blocking cell on the depth axis, the scans of the wedges that
/// one scan pushed visit no cell on the depth axis.
proof fn lemma_children_miss_axis(
    s: Scene,
    cs: Seq<Shadowcast>,
    z: int,
    k: int,
    m: int,
)
    requires
        s.wf(),
        0 <= k < m,
        s.axis_blocked(k),
        forall|i: int| 0 <= i < cs.len() ==> (#[trigger] cs[i]).wf(),
        forall|i: int| 0 <= i < cs.len() ==> z <= k || s.off_axis(#[trigger] cs[i]),
    ensures
        s.all_miss(s.children_visits(cs, z), m),
    decreases s.depth - z, 1int, cs.len(),
{
    if cs.len() == 0 {
    } else {
        let init = cs.drop_last();
        assert forall|i: int| 0 <= i < init.len() implies (#[trigger] init[i]).wf() && (z <= k
            || s.off_axis(init[i])) by {
            assert(init[i] == cs[i]);
        }
        lemma_children_miss_axis(s, init, z, k, m);
        let rest = s.children_visits(init, z);
        if cs.last().z == z {
            lemma_wedge_misses_axis(s, cs.last(), k, m);
            let own = s.wedge_visits(cs.last());
            assert forall|i: int| 0 <= i < (own + rest).len() implies (#[trigger] (own + rest)[i])
                != (0int, 0int, m) by {
                if i < own.len() {
                    assert((own + rest)[i] == own[i]);
                } else {
                    assert((own + rest)[i] == rest[i - own.len()]);
                }
            }
        }
    }
}

/// Occlusion along the depth axis. If the cell on the depth axis at depth
/// `k` is out of range, outside the shape or does not let light pass, a scan
/// visits no cell on the depth axis behind it.
pub proof fn lemma_scan_misses_axis(s: Scene, k: int, m: int)
    requires
        s.wf(),
        0 <= k < m,
        s.axis_blocked(k),
    ensures
        !s.scan_visits().contains((0int, 0int, m)),
{
    lemma_wedge_misses_axis(s, Shadowcast::root(), k, m);
}

/// The cell `j` layers out along one axis of an octant, on the other two
/// axes in the layer next to the origin.
pub open spec fn axis_cell(axis: int, j: int) -> (int, int, int) {
    if axis == 0 {
        (j, 0int, 0int)
    } else if axis == 1 {
        (0int, j, 0int)
    } else {
        (0int, 0int, j)
    }
}

/// The index in the grid of a position.
pub open spec fn coord_of(g: (int, int, int)) -> GridCoord {
    GridCoord { x: g.0 as usize, y: g.1 as usize, z: g.2 as usize }
}

/// The scan of an octant along one of its axes does not reach the cell `m`
/// layers out along an axis behind a cell that blocks the light `k` layers
/// out along the same axis, `k` being at least 1.
proof fn lemma_pass_axis_shadow(
    grid: GridView,
    octant: Octant,
    shift: usize,
    cast_range: usize,
    shape: LightShape,
    source: Point3,
    axis: int,
    k: int,
    m: int,
)
    requires
        octant.within(grid),
        !octant.spec_is_empty(),
        grid.width <= usize::MAX,
        grid.height <= usize::MAX,
        grid.depth <= usize::MAX,
        shift < 3,
        0 <= axis < 3,
        1 <= k < m,
        (ScanView { octant, shift }).holds(shift_in(shift as int, axis_cell(axis, m))),
        ({
            let b = octant.global(axis_cell(axis, k));
            !grid.tile(b.0, b.1, b.2).tile_type.transparent()
        }),
    ensures
        !reached(
            pass_visits(grid, octant, shift, cast_range, shape, source),
            coord_of(octant.global(axis_cell(axis, m))),
        ),
{
    let view = ScanView { octant, shift };
    let s = scene_of(grid, view, cast_range, shape, source);
    let cells = s.scan_visits();
    let visits = pass_visits(grid, octant, shift, cast_range, shape, source);
    let pos = coord_of(octant.global(axis_cell(axis, m)));
    let t = shift_in(shift as int, axis_cell(axis, m));
    if reached(visits, pos) {
        let i = choose|i: int| 0 <= i < visits.len() && (#[trigger] visits[i]).pos == pos;
        let c = cells[i];
        assert(visits[i] == view.visit_at(c));
        crate::shadowcast::laws::lemma_scan_sound(s);
        assert(s.sound(c));
        assert(view.spec_cell(c) == view.spec_cell(t));
        assert(c == t);
        assert(cells.contains(t));
        if shift as int == (axis + 1) % 3 {
            assert(t == (0int, 0int, m));
            assert(s.axis_blocked(k)) by {
                assert(view.global((0int, 0int, k)) == octant.global(axis_cell(axis, k)));
            }
            lemma_scan_misses_axis(s, k, m);
        } else {
            assert(t.2 == 0 && (t.0 == m || t.1 == m));
            lemma_wedge_behind(s, Shadowcast::root());
        }
    }
}

/// Occlusion along an axis. The cast into an octant does not reach a cell
/// that lies straight behind a cell that blocks the light, out along one of
/// the three axes from the corner of the octant next to the origin, if the
/// blocking cell is not that corner itself.
pub proof fn lemma_axis_shadow(
    grid: GridView,
    octant: Octant,
    cast_range: usize,
    shape: LightShape,
    source: Point3,
    axis: int,
    k: int,
    m: int,
)
    requires
        octant.within(grid),
        grid.width <= usize::MAX,
        grid.height <= usize::MAX,
        grid.depth <= usize::MAX,
        0 <= axis < 3,
        1 <= k < m,
        ({
            let l = axis_cell(axis, m);
            0 <= l.0 < octant.size().0 && 0 <= l.1 < octant.size().1 && 0 <= l.2 < octant.size().2
        }),
        ({
            let b = octant.global(axis_cell(axis, k));
            !grid.tile(b.0, b.1, b.2).tile_type.transparent()
        }),
    ensures
        !reached(
            octant_visits(grid, octant, cast_range, shape, source),
            coord_of(octant.global(axis_cell(axis, m))),
        ),
{
    let pos = coord_of(octant.global(axis_cell(axis, m)));
    lemma_octant_reaches_what_a_pass_reaches(grid, octant, cast_range, shape, source, pos);
    lemma_pass_axis_shadow(grid, octant, 0, cast_range, shape, source, axis, k, m);
    lemma_pass_axis_shadow(grid, octant, 1, cast_range, shape, source, axis, k, m);
    lemma_pass_axis_shadow(grid, octant, 2, cast_range, shape, source, axis, k, m);
}

/// The cell `j` cells ahead of `origin` along an axis.
pub open spec fn cell_ahead(origin: GridCoord, axis: int, j: int) -> GridCoord {
    let step = axis_cell(axis, j);
    coord_of((origin.x + step.0, origin.y + step.1, origin.z + step.2))
}

/// The cast into an octant that does not hold a cell does not reach it.
proof fn lemma_octant_keeps_to_itself(
    grid: GridView,
    origin: GridCoord,
    cast_range: usize,
    shape: LightShape,
    source: Point3,
    k: int,
    pos: GridCoord,
)
    requires
        grid.width <= usize::MAX,
        grid.height <= usize::MAX,
        grid.depth <= usize::MAX,
        0 <= k < 8,
        !octant_of(
            (grid.width as int, grid.height as int, grid.depth as int),
            origin,
            cast_range as int,
            signs_of(k),
        ).holds(pos.x as int, pos.y as int, pos.z as int),
    ensures
        !octant_reaches(grid, origin, cast_range, shape, source, k, pos),
{
    reveal(octant_reaches);
    let dims = (grid.width as int, grid.height as int, grid.depth as int);
    let octant = octant_of(dims, origin, cast_range as int, signs_of(k));
    lemma_octants_partition(dims, origin, cast_range as int, 0, 0, 0, signs_of(k));
    if !octant.spec_is_empty() {
        lemma_octant_reaches_what_a_pass_reaches(grid, octant, cast_range, shape, source, pos);
        if reached(pass_visits(grid, octant, 0, cast_range, shape, source), pos) {
            lemma_pass_sound(grid, octant, 0, cast_range, shape, source, pos);
        }
        if reached(pass_visits(grid, octant, 1, cast_range, shape, source), pos) {
            lemma_pass_sound(grid, octant, 1, cast_range, shape, source, pos);
        }
        if reached(pass_visits(grid, octant, 2, cast_range, shape, source), pos) {
            lemma_pass_sound(grid, octant, 2, cast_range, shape, source, pos);
        }
    }
}

/// Whether the cell `j` cells ahead of `origin` along an axis lies in the
/// grid.
pub open spec fn ahead_in_grid(grid: GridView, origin: GridCoord, axis: int, j: int) -> bool {
    let step = axis_cell(axis, j);
    grid.contains(origin.x + step.0, origin.y + step.1, origin.z + step.2)
}

/// A cell ahead of the origin is reached by none of the casts into the
/// octants that lie behind the origin along some axis.
proof fn lemma_behind_misses_ahead(
    grid: GridView,
    origin: GridCoord,
    cast_range: usize,
    shape: LightShape,
    source: Point3,
    axis: int,
    m: int,
    j: int,
)
    requires
        grid.width <= usize::MAX,
        grid.height <= usize::MAX,
        grid.depth <= usize::MAX,
        grid.contains(origin.x as int, origin.y as int, origin.z as int),
        0 <= axis < 3,
        0 <= m,
        ahead_in_grid(grid, origin, axis, m),
        0 <= j < 7,
    ensures
        !octant_reaches(grid, origin, cast_range, shape, source, j, cell_ahead(origin, axis, m)),
{
    let dims = (grid.width as int, grid.height as int, grid.depth as int);
    let pos = cell_ahead(origin, axis, m);
    lemma_octants_partition(
        dims,
        origin,
        cast_range as int,
        pos.x as int,
        pos.y as int,
        pos.z as int,
        signs_of(j),
    );
    assert(signs_of(j) != (true, true, true)) by {
        assert(signs_of(0) == (false, false, false));
        assert(signs_of(1) == (false, false, true));
        assert(signs_of(2) == (false, true, false));
        assert(signs_of(3) == (false, true, true));
        assert(signs_of(4) == (true, false, false));
        assert(signs_of(5) == (true, false, true));
        assert(signs_of(6) == (true, true, false));
    }
    lemma_octant_keeps_to_itself(grid, origin, cast_range, shape, source, j, pos);
}

/// The cast into the octant ahead of the origin does not reach a cell
/// straight ahead of the origin behind a cell that blocks the light.
proof fn lemma_ahead_is_shadowed(
    grid: GridView,
    origin: GridCoord,
    cast_range: usize,
    shape: LightShape,
    source: Point3,
    axis: int,
    k: int,
    m: int,
)
    requires
        grid.width <= usize::MAX,
        grid.height <= usize::MAX,
        grid.depth <= usize::MAX,
        grid.contains(origin.x as int, origin.y as int, origin.z as int),
        0 <= axis < 3,
        1 <= k < m,
        ahead_in_grid(grid, origin, axis, m),
        ({
            let b = cell_ahead(origin, axis, k);
            !grid.tile(b.x as int, b.y as int, b.z as int).tile_type.transparent()
        }),
    ensures
        !octant_reaches(grid, origin, cast_range, shape, source, 7, cell_ahead(origin, axis, m)),
{
    let dims = (grid.width as int, grid.height as int, grid.depth as int);
    let pos = cell_ahead(origin, axis, m);
    let ahead = octant_of(dims, origin, cast_range as int, signs_of(7));
    assert(signs_of(7) == (true, true, true));
    lemma_octants_partition(dims, origin, cast_range as int, 0, 0, 0, signs_of(7));
    if ahead.holds(pos.x as int, pos.y as int, pos.z as int) {
        let b = cell_ahead(origin, axis, k);
        assert(ahead.global(axis_cell(axis, m)) == (pos.x as int, pos.y as int, pos.z as int));
        assert(ahead.global(axis_cell(axis, k)) == (b.x as int, b.y as int, b.z as int));
        assert(coord_of(ahead.global(axis_cell(axis, m))) == pos);
        lemma_axis_shadow(grid, ahead, cast_range, shape, source, axis, k, m);
        reveal(octant_reaches);
    } else {
        lemma_octant_keeps_to_itself(grid, origin, cast_range, shape, source, 7, pos);
    }
}

/// Occlusion straight ahead. A cast does not reach a cell that lies `m`
/// cells ahead of the origin along an axis if a cell between the two, `k`
/// cells ahead of the origin along the same axis, does not let light pass.
/// The blocking cell must not be the origin itself.
pub proof fn lemma_shadow_ahead(
    grid: GridView,
    origin: GridCoord,
    cast_range: usize,
    shape: LightShape,
    source: Point3,
    axis: int,
    k: int,
    m: int,
)
    requires
        grid.width <= usize::MAX,
        grid.height <= usize::MAX,
        grid.depth <= usize::MAX,
        grid.contains(origin.x as int, origin.y as int, origin.z as int),
        0 <= axis < 3,
        1 <= k < m,
        ahead_in_grid(grid, origin, axis, m),
        ({
            let b = cell_ahead(origin, axis, k);
            !grid.tile(b.x as int, b.y as int, b.z as int).tile_type.transparent()
        }),
    ensures
        !reached(
            cast_visits(grid, origin, cast_range, shape, source),
            cell_ahead(origin, axis, m),
        ),
{
    let pos = cell_ahead(origin, axis, m);
    lemma_cast_reached(grid, origin, cast_range, shape, source, pos);
    lemma_behind_misses_ahead(grid, origin, cast_range, shape, source, axis, m, 0);
    lemma_behind_misses_ahead(grid, origin, cast_range, shape, source, axis, m, 1);
    lemma_behind_misses_ahead(grid, origin, cast_range, shape, source, axis, m, 2);
    lemma_behind_misses_ahead(grid, origin, cast_range, shape, source, axis, m, 3);
    lemma_behind_misses_ahead(grid, origin, cast_range, shape, source, axis, m, 4);
    lemma_behind_misses_ahead(grid, origin, cast_range, shape, source, axis, m, 5);
    lemma_behind_misses_ahead(grid, origin, cast_range, shape, source, axis, m, 6);
    lemma_ahead_is_shadowed(grid, origin, cast_range, shape, source, axis, k, m);
}

} // verus!

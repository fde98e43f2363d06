//! What holds of every scan: only cells in range and in shape are visited.

use vstd::prelude::*;
use crate::shadowcast::scan::{
    lemma_scan_frame_pushes,
    ScanState,
    Scene,
    Shadowcast,
};
use crate::shadowcast::slope::Slope;

verus! {

impl Scene {
    /// Whether the position lies inside the view.
    pub open spec fn holds(self, c: (int, int, int)) -> bool {
        0 <= c.0 < self.width && 0 <= c.1 < self.height && 0 <= c.2 < self.depth
    }

    /// Whether the cell may be visited at all: it lies inside the view, nearer
    /// than the range of the cast, and in the shape of the light.
    pub open spec fn sound(self, c: (int, int, int)) -> bool {
        self.holds(c) && self.in_range(c.0, c.1, c.2) && (self.lit)(c.0, c.1, c.2)
    }

    /// Whether every cell of a sequence may be visited.
    pub open spec fn all_sound(self, cells: Seq<(int, int, int)>) -> bool {
        forall|i: int| 0 <= i < cells.len() ==> self.sound(#[trigger] cells[i])
    }
}

/// No boundary lies before the first cell of a slice.
pub proof fn lemma_floor_at_nonnegative(a: Slope, z: int)
    requires
        a.wf(),
        0 <= z,
    ensures
        0 <= a.floor_at(z),
{
    assert(0 <= (z + 1) * a.num) by (nonlinear_arith)
        requires
            0 <= z,
            0 <= a.num,
    ;
    vstd::arithmetic::div_mod::lemma_div_pos_is_pos((z + 1) * a.num, a.den as int);
}

/// The scan of one cell visits at most that cell, and only if it may be
/// visited.
proof fn lemma_step_cell_sound(s: Scene, f: Shadowcast, y: int, x: int, st: ScanState)
    requires
        s.all_sound(st.visits),
        0 <= x < s.width,
        0 <= y < s.height,
        f.z < s.depth,
    ensures
        s.all_sound(s.step_cell(f, y, x, st).visits),
{
    let next = s.step_cell(f, y, x, st);
    assert forall|i: int| 0 <= i < next.visits.len() implies s.sound(#[trigger] next.visits[i]) by {
        if i < st.visits.len() {
            assert(next.visits[i] == st.visits[i]);
        }
    }
}

/// The scan of the cells of a row visits only cells that may be visited.
proof fn lemma_scan_cells_sound(s: Scene, f: Shadowcast, y: int, x: int, st: ScanState)
    requires
        s.wf(),
        s.all_sound(st.visits),
        0 <= x,
        0 <= y < s.height,
        f.z < s.depth,
    ensures
        s.all_sound(s.scan_cells(f, y, x, st).visits),
    decreases s.right(f) + 1 - x,
{
    if x > s.right(f) || st.cut {
    } else {
        lemma_step_cell_sound(s, f, y, x, st);
        lemma_scan_cells_sound(s, f, y, x + 1, s.step_cell(f, y, x, st));
    }
}

/// The scan of the rows of a wedge visits only cells that may be visited.
proof fn lemma_scan_rows_sound(s: Scene, f: Shadowcast, y: int, st: ScanState)
    requires
        s.wf(),
        f.wf(),
        s.all_sound(st.visits),
        0 <= y,
        f.z < s.depth,
    ensures
        s.all_sound(s.scan_rows(f, y, st).visits),
    decreases s.bottom(f) + 1 - y,
{
    if y > s.bottom(f) {
    } else {
        lemma_floor_at_nonnegative(f.left_angle, f.z as int);
        lemma_scan_cells_sound(s, f, y, s.left(f), st);
        lemma_scan_rows_sound(
            s,
            f,
            y + 1,
            s.end_row(f, y, s.scan_cells(f, y, s.left(f), st)),
        );
    }
}

/// The scan of a wedge in its slice visits only cells that may be visited.
pub proof fn lemma_scan_frame_sound(s: Scene, f: Shadowcast)
    requires
        s.wf(),
        f.wf(),
        f.z < s.depth,
    ensures
        s.all_sound(s.scan_frame(f).visits),
{
    lemma_floor_at_nonnegative(f.top_angle, f.z as int);
    lemma_scan_rows_sound(s, f, s.top(f), ScanState::start());
}

/// The scan of a wedge, through all the slices behind it, visits only cells
/// that may be visited.
pub proof fn lemma_wedge_sound(s: Scene, f: Shadowcast)
    requires
        s.wf(),
        f.wf(),
    ensures
        s.all_sound(s.wedge_visits(f)),
    decreases s.depth - f.z, 0int, 0int,
{
    if f.z >= s.depth {
    } else {
        let own = s.scan_frame(f);
        lemma_scan_frame_sound(s, f);
        lemma_scan_frame_pushes(s, f);
        lemma_children_sound(s, own.pushes, f.z + 1);
    }
}

/// The scans of the wedges that one scan pushed visit only cells that may be
/// visited.
pub proof fn lemma_children_sound(s: Scene, cs: Seq<Shadowcast>, z: int)
    requires
        s.wf(),
        forall|i: int| 0 <= i < cs.len() ==> (#[trigger] cs[i]).wf(),
    ensures
        s.all_sound(s.children_visits(cs, z)),
    decreases s.depth - z, 1int, cs.len(),
{
    if cs.len() == 0 {
    } else {
        assert forall|i: int| 0 <= i < cs.drop_last().len() implies (#[trigger] cs.drop_last()[i]).wf() by {
            assert(cs.drop_last()[i] == cs[i]);
        }
        lemma_children_sound(s, cs.drop_last(), z);
        if cs.last().z == z {
            lemma_wedge_sound(s, cs.last());
        }
    }
}

/// A cast never reaches a cell outside the view, at or beyond its range, or
/// outside the shape of the light.
pub proof fn lemma_scan_sound(s: Scene)
    requires
        s.wf(),
    ensures
        s.all_sound(s.scan_visits()),
{
    lemma_wedge_sound(s, Shadowcast::root());
}

impl Scene {
    /// Whether two scenes have the same extent and range and agree, for every
    /// cell of the view, on whether it lies in the shape and lets light pass.
    pub open spec fn agrees_with(self, other: Scene) -> bool {
        &&& self.width == other.width
        &&& self.height == other.height
        &&& self.depth == other.depth
        &&& self.cast_range == other.cast_range
        &&& forall|x: int, y: int, z: int| #[trigger]
            self.holds((x, y, z)) ==> (self.lit)(x, y, z) == (other.lit)(x, y, z) && (self.open)(
                x,
                y,
                z,
            ) == (other.open)(x, y, z)
    }
}

/// In scenes that agree, the scan of the cells of a row comes out the same.
proof fn lemma_scan_cells_agree(a: Scene, b: Scene, f: Shadowcast, y: int, x: int, st: ScanState)
    requires
        a.wf(),
        a.agrees_with(b),
        0 <= x,
        0 <= y < a.height,
        f.z < a.depth,
    ensures
        a.scan_cells(f, y, x, st) == b.scan_cells(f, y, x, st),
    decreases a.right(f) + 1 - x,
{
    if x > a.right(f) || st.cut {
    } else {
        assert(a.holds((x, y, f.z as int)));
        lemma_scan_cells_agree(a, b, f, y, x + 1, a.step_cell(f, y, x, st));
    }
}

/// In scenes that agree, the scan of the rows of a wedge comes out the same.
proof fn lemma_scan_rows_agree(a: Scene, b: Scene, f: Shadowcast, y: int, st: ScanState)
    requires
        a.wf(),
        f.wf(),
        a.agrees_with(b),
        0 <= y,
        f.z < a.depth,
    ensures
        a.scan_rows(f, y, st) == b.scan_rows(f, y, st),
    decreases a.bottom(f) + 1 - y,
{
    if y > a.bottom(f) {
    } else {
        lemma_floor_at_nonnegative(f.left_angle, f.z as int);
        lemma_scan_cells_agree(a, b, f, y, a.left(f), st);
        lemma_scan_rows_agree(
            a,
            b,
            f,
            y + 1,
            a.end_row(f, y, a.scan_cells(f, y, a.left(f), st)),
        );
    }
}

/// In scenes that agree, the scan of a wedge visits the same cells in the
/// same order, through all the slices behind it.
pub proof fn lemma_wedge_agrees(a: Scene, b: Scene, f: Shadowcast)
    requires
        a.wf(),
        f.wf(),
        a.agrees_with(b),
    ensures
        a.wedge_visits(f) == b.wedge_visits(f),
    decreases a.depth - f.z, 0int, 0int,
{
    if f.z >= a.depth {
    } else {
        lemma_floor_at_nonnegative(f.top_angle, f.z as int);
        lemma_scan_rows_agree(a, b, f, a.top(f), ScanState::start());
        lemma_scan_frame_pushes(a, f);
        lemma_children_agree(a, b, a.scan_frame(f).pushes, f.z + 1);
    }
}

/// In scenes that agree, the scans of pushed wedges visit the same cells in
/// the same order.
pub proof fn lemma_children_agree(a: Scene, b: Scene, cs: Seq<Shadowcast>, z: int)
    requires
        a.wf(),
        a.agrees_with(b),
        forall|i: int| 0 <= i < cs.len() ==> (#[trigger] cs[i]).wf(),
    ensures
        a.children_visits(cs, z) == b.children_visits(cs, z),
    decreases a.depth - z, 1int, cs.len(),
{
    if cs.len() == 0 {
    } else {
        assert forall|i: int| 0 <= i < cs.drop_last().len() implies (#[trigger] cs.drop_last()[i]).wf() by {
            assert(cs.drop_last()[i] == cs[i]);
        }
        lemma_children_agree(a, b, cs.drop_last(), z);
        if cs.last().z == z {
            lemma_wedge_agrees(a, b, cs.last());
        }
    }
}

} // verus!

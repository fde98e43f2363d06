//! The scan of one view: wedges, slice by slice, away from the origin.

use vstd::prelude::*;
use crate::geometry::point::{GridCoord, Point3};
use crate::shadowcast::octant::ScanView;
use crate::shadowcast::shape::{offset_of, LightShape};
use crate::shadowcast::slope::{min_int, Slope};
use crate::util::{distance_squared, LookupTables};
use crate::world::grid::{GridView, TileGrid};

verus! {

/// A wedge that waits to be scanned: the four boundaries of the wedge and the
/// depth of the slice in which the scan of it goes on.
#[derive(Debug, Clone, Copy, PartialEq, Eq)]
pub struct Shadowcast {
    pub left_angle: Slope,
    pub right_angle: Slope,
    pub top_angle: Slope,
    pub bottom_angle: Slope,
    pub z: usize,
}

/// A cell that a scan has reached: its index in the grid, and its position in
/// the scanned view, counted from the origin outwards with the depth last.
#[derive(Debug, Clone, Copy, PartialEq, Eq)]
pub struct Visit {
    pub pos: GridCoord,
    pub offset: (usize, usize, usize),
}

/// What a scan can know of the world: the extent of the view, the range of
/// the cast, which cells lie in the shape of the light and which let light
/// pass. Positions are positions of the view.
pub struct Scene {
    pub width: usize,
    pub height: usize,
    pub depth: usize,
    pub cast_range: usize,
    pub lit: spec_fn(int, int, int) -> bool,
    pub open: spec_fn(int, int, int) -> bool,
}

/// Where the scan of one wedge in one slice stands: the cells visited and the
/// wedges pushed so far, the first cell of the run of clear cells in the
/// current row, the first row of the run of clear rows, and whether the
/// current row was cut short by the range.
pub struct ScanState {
    pub visits: Seq<(int, int, int)>,
    pub pushes: Seq<Shadowcast>,
    pub last_left: Option<int>,
    pub last_top: Option<int>,
    pub cut: bool,
}

impl Shadowcast {
    /// All four boundaries are fractions.
    pub open spec fn wf(self) -> bool {
        &&& self.left_angle.wf()
        &&& self.right_angle.wf()
        &&& self.top_angle.wf()
        &&& self.bottom_angle.wf()
    }

    /// The wedge with which every scan begins: the whole view, from the depth
    /// axis to the diagonal both ways, in the slice at depth 0.
    pub open spec fn root() -> Shadowcast {
        Shadowcast {
            left_angle: Slope::zero(),
            right_angle: Slope::diagonal(),
            top_angle: Slope::zero(),
            bottom_angle: Slope::diagonal(),
            z: 0,
        }
    }

    /// The part of row `y` from the clear cell `first` up to the blocking
    /// cell `x`, one slice further out.
    pub open spec fn run_child(self, first: int, x: int, y: int) -> Shadowcast {
        Shadowcast {
            left_angle: Slope::of_cell(first, self.z as int),
            right_angle: Slope::of_cell(x, self.z as int),
            top_angle: Slope::of_cell(y, self.z as int),
            bottom_angle: Slope::of_cell(y + 1, self.z as int),
            z: (self.z + 1) as usize,
        }
    }

    /// The part of row `y` from the clear cell `first` to the end of the
    /// wedge, one slice further out.
    pub open spec fn tail_child(self, first: int, y: int) -> Shadowcast {
        Shadowcast {
            left_angle: Slope::of_cell(first, self.z as int),
            right_angle: self.right_angle,
            top_angle: Slope::of_cell(y, self.z as int),
            bottom_angle: Slope::of_cell(y + 1, self.z as int),
            z: (self.z + 1) as usize,
        }
    }

    /// The clear rows from `first` up to row `y`, in the full width of the
    /// wedge, one slice further out.
    pub open spec fn rows_child(self, first: int, y: int) -> Shadowcast {
        Shadowcast {
            left_angle: self.left_angle,
            right_angle: self.right_angle,
            top_angle: Slope::of_cell(first, self.z as int),
            bottom_angle: Slope::of_cell(y, self.z as int),
            z: (self.z + 1) as usize,
        }
    }

    /// The clear rows from `first` to the end of the wedge, in its full
    /// width, one slice further out.
    pub open spec fn trailing_child(self, first: int) -> Shadowcast {
        Shadowcast {
            left_angle: self.left_angle,
            right_angle: self.right_angle,
            top_angle: Slope::of_cell(first, self.z as int),
            bottom_angle: self.bottom_angle,
            z: (self.z + 1) as usize,
        }
    }

    /// The same wedge, one slice further out.
    pub open spec fn full_child(self) -> Shadowcast {
        Shadowcast { z: (self.z + 1) as usize, ..self }
    }
}

impl ScanView {
    /// The record of a visit to the cell at a position of the scan.
    pub open spec fn visit_at(self, c: (int, int, int)) -> Visit {
        Visit { pos: self.spec_cell(c), offset: (c.0 as usize, c.1 as usize, c.2 as usize) }
    }
}

/// The records of the visits to the cells at the given positions of a scan.
pub open spec fn visits_of(view: ScanView, cells: Seq<(int, int, int)>) -> Seq<Visit> {
    cells.map_values(|c: (int, int, int)| view.visit_at(c))
}

/// The first row or cell of a run, as a mathematical integer.
pub open spec fn opt_int(o: Option<usize>) -> Option<int> {
    match o {
        Some(v) => Some(v as int),
        None => None,
    }
}

impl ScanState {
    /// Nothing visited, nothing pushed, no run begun.
    pub open spec fn start() -> ScanState {
        ScanState {
            visits: Seq::empty(),
            pushes: Seq::empty(),
            last_left: None,
            last_top: None,
            cut: false,
        }
    }

    /// The state with one more wedge pushed.
    pub open spec fn push(self, child: Shadowcast) -> ScanState {
        ScanState { pushes: self.pushes.push(child), ..self }
    }

    /// The state after the run of clear rows, if there is one, has been
    /// pushed as a wedge that ends before row `y`.
    pub open spec fn flush_rows(self, f: Shadowcast, y: int) -> ScanState {
        match self.last_top {
            Some(first) => ScanState { last_top: None, ..self.push(f.rows_child(first, y)) },
            None => self,
        }
    }

    /// The state after the run of clear cells, if there is one, has been
    /// pushed as a wedge that ends before cell `x` of row `y`.
    pub open spec fn flush_run(self, f: Shadowcast, x: int, y: int) -> ScanState {
        match self.last_left {
            Some(first) => ScanState { last_left: None, ..self.push(f.run_child(first, x, y)) },
            None => self,
        }
    }
}

impl Scene {
    /// The view holds at least one cell.
    pub open spec fn wf(self) -> bool {
        self.width >= 1 && self.height >= 1 && self.depth >= 1
    }

    /// Whether the cell lies nearer to the origin than the range of the cast.
    pub open spec fn in_range(self, x: int, y: int, z: int) -> bool {
        distance_squared(x, y, z) < self.cast_range * self.cast_range
    }

    /// Whether light goes on behind the cell: the cell lets light pass and
    /// lies in the shape of the light.
    pub open spec fn clear(self, x: int, y: int, z: int) -> bool {
        (self.open)(x, y, z) && (self.lit)(x, y, z)
    }

    /// The first column of the wedge in its slice.
    pub open spec fn left(self, f: Shadowcast) -> int {
        min_int(f.left_angle.floor_at(f.z as int), self.width as int)
    }

    /// The last column of the wedge in its slice.
    pub open spec fn right(self, f: Shadowcast) -> int {
        min_int(f.right_angle.ceil_at(f.z as int), self.width - 1)
    }

    /// The first row of the wedge in its slice.
    pub open spec fn top(self, f: Shadowcast) -> int {
        min_int(f.top_angle.floor_at(f.z as int), self.height as int)
    }

    /// The last row of the wedge in its slice.
    pub open spec fn bottom(self, f: Shadowcast) -> int {
        min_int(f.bottom_angle.ceil_at(f.z as int), self.height - 1)
    }

    /// Whether there is a slice behind the slice of the wedge.
    pub open spec fn recurses(self, f: Shadowcast) -> bool {
        f.z + 1 < self.depth
    }

    /// The state after cell `x` of row `y`. A cell out of range cuts the row
    /// short: the runs of clear cells and of clear rows end before it, and
    /// neither it nor the rest of the row is visited. A cell in range is
    /// visited if it lies in the shape of the light; a clear cell begins or
    /// prolongs the run of clear cells, any other ends both runs.
    pub open spec fn step_cell(self, f: Shadowcast, y: int, x: int, st: ScanState) -> ScanState {
        if !self.in_range(x, y, f.z as int) {
            if self.recurses(f) {
                ScanState { cut: true, ..st.flush_run(f, x, y).flush_rows(f, y) }
            } else {
                ScanState { cut: true, ..st }
            }
        } else {
            let seen = if (self.lit)(x, y, f.z as int) {
                ScanState { visits: st.visits.push((x, y, f.z as int)), ..st }
            } else {
                st
            };
            if !self.recurses(f) {
                seen
            } else if self.clear(x, y, f.z as int) {
                ScanState {
                    last_left: Some(
                        match seen.last_left {
                            Some(first) => first,
                            None => x,
                        },
                    ),
                    ..seen
                }
            } else {
                seen.flush_rows(f, y).flush_run(f, x, y)
            }
        }
    }

    /// The state after the cells of row `y` from `x` on.
    pub open spec fn scan_cells(self, f: Shadowcast, y: int, x: int, st: ScanState) -> ScanState
        decreases self.right(f) + 1 - x,
    {
        if x > self.right(f) || st.cut {
            st
        } else {
            self.scan_cells(f, y, x + 1, self.step_cell(f, y, x, st))
        }
    }

    /// The state after the end of row `y`, `st` being the state after its
    /// cells. A row that was clear from its first cell on begins or prolongs
    /// the run of clear rows; a run of clear cells that began later in the
    /// row is pushed as a wedge of its own.
    pub open spec fn end_row(self, f: Shadowcast, y: int, st: ScanState) -> ScanState {
        if st.cut {
            ScanState { last_left: None, cut: false, ..st }
        } else {
            match st.last_left {
                Some(first) => if !self.recurses(f) {
                    ScanState { last_left: None, ..st }
                } else if first == self.left(f) {
                    ScanState {
                        last_left: None,
                        last_top: Some(
                            match st.last_top {
                                Some(row) => row,
                                None => y,
                            },
                        ),
                        ..st
                    }
                } else {
                    ScanState { last_left: None, ..st.push(f.tail_child(first, y)) }
                },
                None => st,
            }
        }
    }

    /// The state after the rows of the wedge from `y` on.
    pub open spec fn scan_rows(self, f: Shadowcast, y: int, st: ScanState) -> ScanState
        decreases self.bottom(f) + 1 - y,
    {
        if y > self.bottom(f) {
            st
        } else {
            self.scan_rows(
                f,
                y + 1,
                self.end_row(f, y, self.scan_cells(f, y, self.left(f), st)),
            )
        }
    }

    /// The state after the last row. A run of clear rows that is still open
    /// goes on one slice further out: as the whole wedge if every row was
    /// clear, else as the wedge of the rows of the run.
    pub open spec fn finish(self, f: Shadowcast, st: ScanState) -> ScanState {
        match st.last_top {
            Some(first) => if !self.recurses(f) {
                st
            } else if first == self.top(f) {
                st.push(f.full_child())
            } else {
                st.push(f.trailing_child(first))
            },
            None => st,
        }
    }

    /// The scan of one wedge in its slice: the cells it visits, in row-major
    /// order, and the wedges it pushes for the next slice.
    pub open spec fn scan_frame(self, f: Shadowcast) -> ScanState {
        self.finish(f, self.scan_rows(f, self.top(f), ScanState::start()))
    }

    /// The cells that the scan of a wedge visits, in this slice and in all
    /// the slices behind it: its own cells first, then those of the wedges it
    /// pushed, the last pushed first.
    pub open spec fn wedge_visits(self, f: Shadowcast) -> Seq<(int, int, int)>
        decreases self.depth - f.z, 0int, 0int,
    {
        if f.z >= self.depth {
            Seq::empty()
        } else {
            let own = self.scan_frame(f);
            own.visits + self.children_visits(own.pushes, f.z + 1)
        }
    }

    /// The cells that the scans of the wedges `cs` visit, all of them wedges
    /// of the slice at depth `z`, the last of them scanned first.
    pub open spec fn children_visits(self, cs: Seq<Shadowcast>, z: int) -> Seq<(int, int, int)>
        decreases self.depth - z, 1int, cs.len(),
    {
        if cs.len() == 0 {
            Seq::empty()
        } else if cs.last().z != z {
            self.children_visits(cs.drop_last(), z)
        } else {
            self.wedge_visits(cs.last()) + self.children_visits(cs.drop_last(), z)
        }
    }

    /// The cells that a whole scan visits, in the order of the visits.
    pub open spec fn scan_visits(self) -> Seq<(int, int, int)> {
        self.wedge_visits(Shadowcast::root())
    }

    /// The cells that are visited until a stack of waiting wedges is used up,
    /// the top of the stack being its last wedge.
    pub open spec fn stack_visits(self, stack: Seq<Shadowcast>) -> Seq<(int, int, int)>
        decreases stack.len(),
    {
        if stack.len() == 0 {
            Seq::empty()
        } else {
            self.wedge_visits(stack.last()) + self.stack_visits(stack.drop_last())
        }
    }

    /// The number of wedges that are scanned for a wedge: itself and all that
    /// follow from it.
    pub open spec fn wedge_frames(self, f: Shadowcast) -> nat
        decreases self.depth - f.z, 0int, 0int,
    {
        if f.z >= self.depth {
            1
        } else {
            1 + self.children_frames(self.scan_frame(f).pushes, f.z + 1)
        }
    }

    /// The number of wedges that are scanned for the wedges `cs` of the slice
    /// at depth `z`.
    pub open spec fn children_frames(self, cs: Seq<Shadowcast>, z: int) -> nat
        decreases self.depth - z, 1int, cs.len(),
    {
        if cs.len() == 0 {
            0
        } else if cs.last().z != z {
            1 + self.children_frames(cs.drop_last(), z)
        } else {
            self.wedge_frames(cs.last()) + self.children_frames(cs.drop_last(), z)
        }
    }

    /// The number of wedges that are scanned until a stack of waiting wedges
    /// is used up.
    pub open spec fn stack_frames(self, stack: Seq<Shadowcast>) -> nat
        decreases stack.len(),
    {
        if stack.len() == 0 {
            0
        } else {
            self.wedge_frames(stack.last()) + self.stack_frames(stack.drop_last())
        }
    }
}

/// What the scan of a view of a grid knows of the world.
pub open spec fn scene_of(
    grid: GridView,
    view: ScanView,
    cast_range: usize,
    shape: LightShape,
    source: Point3,
) -> Scene {
    Scene {
        width: view.size().0 as usize,
        height: view.size().1 as usize,
        depth: view.size().2 as usize,
        cast_range,
        lit: |x: int, y: int, z: int| shape.spec_contains(offset_of(view.spec_cell((x, y, z)), source)),
        open: |x: int, y: int, z: int|
            {
                let g = view.global((x, y, z));
                grid.tile(g.0, g.1, g.2).tile_type.transparent()
            },
    }
}

impl Scene {
    /// Every wedge pushed so far is a wedge of the next slice, made of
    /// fractions, and there is a next slice if any was pushed.
    pub open spec fn pushes_ok(self, f: Shadowcast, st: ScanState) -> bool {
        forall|i: int| 0 <= i < st.pushes.len() ==> self.child_ok(f, #[trigger] st.pushes[i])
    }

    /// The wedge `c` is a wedge of the slice behind `f`, made of fractions.
    pub open spec fn child_ok(self, f: Shadowcast, c: Shadowcast) -> bool {
        c.wf() && c.z == f.z + 1 && self.recurses(f)
    }
}

/// The scan of one cell pushes only wedges of the next slice.
pub proof fn lemma_step_cell_pushes(s: Scene, f: Shadowcast, y: int, x: int, st: ScanState)
    requires
        f.wf(),
        s.pushes_ok(f, st),
    ensures
        s.pushes_ok(f, s.step_cell(f, y, x, st)),
{
    let next = s.step_cell(f, y, x, st);
    assert forall|i: int| 0 <= i < next.pushes.len() implies s.child_ok(
        f,
        #[trigger] next.pushes[i],
    ) by {
        if i < st.pushes.len() {
            assert(next.pushes[i] == st.pushes[i]);
        }
    }
}

/// The scan of the cells of a row pushes only wedges of the next slice.
pub proof fn lemma_scan_cells_pushes(s: Scene, f: Shadowcast, y: int, x: int, st: ScanState)
    requires
        f.wf(),
        s.pushes_ok(f, st),
    ensures
        s.pushes_ok(f, s.scan_cells(f, y, x, st)),
    decreases s.right(f) + 1 - x,
{
    if x > s.right(f) || st.cut {
    } else {
        lemma_step_cell_pushes(s, f, y, x, st);
        lemma_scan_cells_pushes(s, f, y, x + 1, s.step_cell(f, y, x, st));
    }
}

/// The scan of the rows of a wedge pushes only wedges of the next slice.
pub proof fn lemma_scan_rows_pushes(s: Scene, f: Shadowcast, y: int, st: ScanState)
    requires
        f.wf(),
        s.pushes_ok(f, st),
    ensures
        s.pushes_ok(f, s.scan_rows(f, y, st)),
    decreases s.bottom(f) + 1 - y,
{
    if y > s.bottom(f) {
    } else {
        let cells = s.scan_cells(f, y, s.left(f), st);
        lemma_scan_cells_pushes(s, f, y, s.left(f), st);
        let end = s.end_row(f, y, cells);
        assert forall|i: int| 0 <= i < end.pushes.len() implies s.child_ok(
            f,
            #[trigger] end.pushes[i],
        ) by {
            if i < cells.pushes.len() {
                assert(end.pushes[i] == cells.pushes[i]);
            }
        }
        lemma_scan_rows_pushes(s, f, y + 1, end);
    }
}

/// The scan of a wedge pushes only wedges of the next slice, and none from
/// the last slice.
pub proof fn lemma_scan_frame_pushes(s: Scene, f: Shadowcast)
    requires
        f.wf(),
    ensures
        s.pushes_ok(f, s.scan_frame(f)),
{
    let rows = s.scan_rows(f, s.top(f), ScanState::start());
    lemma_scan_rows_pushes(s, f, s.top(f), ScanState::start());
    let end = s.finish(f, rows);
    assert forall|i: int| 0 <= i < end.pushes.len() implies s.child_ok(
        f,
        #[trigger] end.pushes[i],
    ) by {
        if i < rows.pushes.len() {
            assert(end.pushes[i] == rows.pushes[i]);
        }
    }
}

/// Whether a view of a grid can be scanned with the given shape and tables:
/// the view lies in the grid and holds a cell, the tables cover its extent,
/// and the shape can be cast in the grid.
pub open spec fn scannable(grid: GridView, view: ScanView, shape: LightShape, max_range: nat) -> bool {
    &&& view.wf()
    &&& view.octant.within(grid)
    &&& !view.octant.spec_is_empty()
    &&& view.octant.size().0 <= max_range
    &&& view.octant.size().1 <= max_range
    &&& view.octant.size().2 <= max_range
    &&& shape.in_reach(grid.width as int, grid.height as int, grid.depth as int)
}

/// Scans one view of the grid from its origin outwards and returns the cells
/// that the cast reaches, in the order in which it reaches them. A cell may
/// be reached more than once.
///
/// The scan keeps a stack of wedges. It begins with the wedge that spans the
/// view in the slice at depth 0, and scans the wedge on top of the stack, row
/// by row, until the stack is empty. In a row it visits every cell in range
/// that lies in the shape; runs of clear cells and of clear rows go on the
/// stack as narrower wedges of the next slice, so that nothing behind a
/// blocking cell is scanned.
pub fn scan_recursive_shadowcast(
    grid: &TileGrid,
    view: &ScanView,
    cast_range: usize,
    shape: &LightShape,
    source_pos: Point3,
    tables: &LookupTables,
) -> (visits: Vec<Visit>)
    requires
        scannable(grid@, *view, *shape, tables.spec_max_range()),
    ensures
        visits@ == visits_of(
            *view,
            scene_of(grid@, *view, cast_range, *shape, source_pos).scan_visits(),
        ),
{
    let ghost s = scene_of(grid@, *view, cast_range, *shape, source_pos);
    let mut frontier: Vec<Shadowcast> = Vec::new();
    let mut visits: Vec<Visit> = Vec::new();
    frontier.push(
        Shadowcast {
            left_angle: Slope { num: 0, den: 1 },
            right_angle: Slope { num: 1, den: 1 },
            top_angle: Slope { num: 0, den: 1 },
            bottom_angle: Slope { num: 1, den: 1 },
            z: 0,
        },
    );
    let ghost mut done: Seq<(int, int, int)> = Seq::empty();
    proof {
        assert(frontier@ =~= seq![Shadowcast::root()]);
        assert(frontier@.drop_last() =~= Seq::<Shadowcast>::empty());
        assert(s.stack_visits(frontier@) =~= s.scan_visits()) by {
            reveal_with_fuel(Scene::stack_visits, 2);
        }
        assert(visits@ =~= visits_of(*view, done));
    }
    loop
        invariant
            scannable(grid@, *view, *shape, tables.spec_max_range()),
            s == scene_of(grid@, *view, cast_range, *shape, source_pos),
            forall|i: int|
                0 <= i < frontier@.len() ==> (#[trigger] frontier@[i]).wf() && frontier@[i].z
                    < s.depth,
            visits@ == visits_of(*view, done),
            done + s.stack_visits(frontier@) == s.scan_visits(),
        ensures
            visits@ == visits_of(*view, s.scan_visits()),
        decreases s.stack_frames(frontier@),
    {
        let ghost stack = frontier@;
        let current = match frontier.pop() {
            Some(current) => current,
            None => {
                proof {
                    assert(done =~= s.scan_visits());
                }
                break ;
            },
        };
        let ghost rest = frontier@;
        proof {
            assert(rest =~= stack.drop_last());
            assert(current == stack.last());
        }
        scan_frame(grid, view, cast_range, shape, source_pos, tables, &current, &mut visits, &mut frontier);
        proof {
            let own = s.scan_frame(current);
            lemma_scan_frame_pushes(s, current);
            lemma_stack_of_children(s, rest, own.pushes, current.z + 1);
            assert(frontier@ =~= rest + own.pushes);
            assert(visits@ =~= visits_of(*view, done + own.visits));
            assert((done + own.visits) + s.stack_visits(frontier@) =~= done + s.stack_visits(stack));
            done = done + own.visits;
        }
    }
    visits
}

/// A stack on which the wedges pushed by one scan lie uppermost is used up
/// by scanning those wedges first and the rest of the stack after.
proof fn lemma_stack_of_children(s: Scene, rest: Seq<Shadowcast>, cs: Seq<Shadowcast>, z: int)
    requires
        forall|i: int| 0 <= i < cs.len() ==> (#[trigger] cs[i]).z == z,
    ensures
        s.stack_visits(rest + cs) == s.children_visits(cs, z) + s.stack_visits(rest),
        s.stack_frames(rest + cs) == s.children_frames(cs, z) + s.stack_frames(rest),
    decreases cs.len(),
{
    if cs.len() == 0 {
        assert(rest + cs =~= rest);
    } else {
        lemma_stack_of_children(s, rest, cs.drop_last(), z);
        assert((rest + cs).drop_last() =~= rest + cs.drop_last());
        assert((rest + cs).last() == cs.last());
    }
}

/// Scans one wedge in its slice: appends the cells it visits to `visits`,
/// and the wedges with which the scan goes on in the next slice to
/// `frontier`.
fn scan_frame(
    grid: &TileGrid,
    view: &ScanView,
    cast_range: usize,
    shape: &LightShape,
    source_pos: Point3,
    tables: &LookupTables,
    current: &Shadowcast,
    visits: &mut Vec<Visit>,
    frontier: &mut Vec<Shadowcast>,
)
    requires
        scannable(grid@, *view, *shape, tables.spec_max_range()),
        current.wf(),
        current.z < view.size().2,
    ensures
        final(visits)@ == old(visits)@ + visits_of(
            *view,
            scene_of(grid@, *view, cast_range, *shape, source_pos).scan_frame(*current).visits,
        ),
        final(frontier)@ == old(frontier)@ + scene_of(
            grid@,
            *view,
            cast_range,
            *shape,
            source_pos,
        ).scan_frame(*current).pushes,
{
    let ghost s = scene_of(grid@, *view, cast_range, *shape, source_pos);
    let ghost base_visits = visits@;
    let ghost base_frontier = frontier@;
    let (width, height, depth) = view.dim();
    let z = current.z;
    let left = current.left_angle.floor_bound(z, width);
    let right = current.right_angle.ceil_bound(z, width - 1);
    let top = current.top_angle.floor_bound(z, height);
    let bottom = current.bottom_angle.ceil_bound(z, height - 1);
    let recurse = z < depth - 1;
    let mut last_top: Option<usize> = None;
    let ghost mut st = ScanState::start();
    let mut y = top;
    proof {
        assert(visits@ =~= base_visits + visits_of(*view, st.visits));
        assert(frontier@ =~= base_frontier + st.pushes);
    }
    while y <= bottom
        invariant
            scannable(grid@, *view, *shape, tables.spec_max_range()),
            s == scene_of(grid@, *view, cast_range, *shape, source_pos),
            current.wf(),
            z == current.z,
            z < depth,
            (width as int, height as int, depth as int) == view.size(),
            left == s.left(*current),
            right == s.right(*current),
            top == s.top(*current),
            bottom == s.bottom(*current),
            recurse == s.recurses(*current),
            top <= y <= height,
            s.scan_rows(*current, y as int, st) == s.scan_rows(
                *current,
                top as int,
                ScanState::start(),
            ),
            visits@ == base_visits + visits_of(*view, st.visits),
            frontier@ == base_frontier + st.pushes,
            opt_int(last_top) == st.last_top,
            last_top matches Some(row) ==> row < y && recurse,
            st.last_left is None,
            !st.cut,
        decreases height - y,
    {
        let ghost before = st;
        scan_row(
            grid,
            view,
            cast_range,
            shape,
            source_pos,
            tables,
            current,
            left,
            right,
            y,
            &mut last_top,
            visits,
            frontier,
            Ghost(st),
            Ghost(base_visits),
            Ghost(base_frontier),
        );
        proof {
            st = s.end_row(*current, y as int, s.scan_cells(*current, y as int, left as int, before));
        }
        y += 1;
    }
    match last_top {
        Some(first) => {
            if recurse {
                if first == top {
                    frontier.push(
                        Shadowcast {
                            left_angle: current.left_angle,
                            right_angle: current.right_angle,
                            top_angle: current.top_angle,
                            bottom_angle: current.bottom_angle,
                            z: z + 1,
                        },
                    );
                } else {
                    frontier.push(
                        Shadowcast {
                            left_angle: current.left_angle,
                            right_angle: current.right_angle,
                            top_angle: tables.slope(first, z),
                            bottom_angle: current.bottom_angle,
                            z: z + 1,
                        },
                    );
                }
            }
        },
        None => {},
    }
    proof {
        let end = s.finish(*current, st);
        assert(end == s.scan_frame(*current));
        assert(frontier@ =~= base_frontier + end.pushes);
    }
}

/// Scans row `y` of a wedge and does the bookkeeping at its end. `st` is the
/// state of the scan before the row; `visits` and `frontier` hold, behind
/// what they held before the wedge, what that state holds.
fn scan_row(
    grid: &TileGrid,
    view: &ScanView,
    cast_range: usize,
    shape: &LightShape,
    source_pos: Point3,
    tables: &LookupTables,
    current: &Shadowcast,
    left: usize,
    right: usize,
    y: usize,
    last_top: &mut Option<usize>,
    visits: &mut Vec<Visit>,
    frontier: &mut Vec<Shadowcast>,
    Ghost(st): Ghost<ScanState>,
    Ghost(base_visits): Ghost<Seq<Visit>>,
    Ghost(base_frontier): Ghost<Seq<Shadowcast>>,
)
    requires
        scannable(grid@, *view, *shape, tables.spec_max_range()),
        current.wf(),
        current.z < view.size().2,
        left == scene_of(grid@, *view, cast_range, *shape, source_pos).left(*current),
        right == scene_of(grid@, *view, cast_range, *shape, source_pos).right(*current),
        y < view.size().1,
        old(visits)@ == base_visits + visits_of(*view, st.visits),
        old(frontier)@ == base_frontier + st.pushes,
        opt_int(*old(last_top)) == st.last_top,
        *old(last_top) matches Some(row) ==> row < y && current.z + 1 < view.size().2,
        st.last_left is None,
        !st.cut,
    ensures
        ({
            let s = scene_of(grid@, *view, cast_range, *shape, source_pos);
            let end = s.end_row(*current, y as int, s.scan_cells(*current, y as int, left as int, st));
            &&& final(visits)@ == base_visits + visits_of(*view, end.visits)
            &&& final(frontier)@ == base_frontier + end.pushes
            &&& opt_int(*final(last_top)) == end.last_top
            &&& *final(last_top) matches Some(row) ==> row <= y && current.z + 1 < view.size().2
            &&& end.last_left is None
            &&& !end.cut
        }),
{
    let ghost s = scene_of(grid@, *view, cast_range, *shape, source_pos);
    let (width, height, depth) = view.dim();
    let z = current.z;
    let recurse = z < depth - 1;
    let mut last_left: Option<usize> = None;
    let mut cut = false;
    let ghost mut now = st;
    let mut x = left;
    while x <= right && !cut
        invariant
            scannable(grid@, *view, *shape, tables.spec_max_range()),
            s == scene_of(grid@, *view, cast_range, *shape, source_pos),
            current.wf(),
            z == current.z,
            z < depth,
            (width as int, height as int, depth as int) == view.size(),
            left == s.left(*current),
            right == s.right(*current),
            right < width,
            recurse == s.recurses(*current),
            y < height,
            left <= x <= width,
            s.scan_cells(*current, y as int, x as int, now) == s.scan_cells(
                *current,
                y as int,
                left as int,
                st,
            ),
            visits@ == base_visits + visits_of(*view, now.visits),
            frontier@ == base_frontier + now.pushes,
            opt_int(*last_top) == now.last_top,
            opt_int(last_left) == now.last_left,
            cut == now.cut,
            *last_top matches Some(row) ==> row < y && recurse,
            last_left matches Some(first) ==> left <= first < x && recurse,
        decreases width - x,
    {
        let ghost before = now;
        let ghost visits_before = visits@;
        let ghost frontier_before = frontier@;
        let dist = tables.distance_squared(x, y, z);
        proof {
            vstd::arithmetic::mul::lemma_mul_upper_bound(
                cast_range as int,
                0xffff_ffff_ffff_ffff,
                cast_range as int,
                0xffff_ffff_ffff_ffff,
            );
        }
        let outside_range = dist as u128 >= (cast_range as u128) * (cast_range as u128);
        assert(outside_range == !s.in_range(x as int, y as int, z as int));
        if outside_range {
            if recurse {
                match last_left {
                    Some(first) => {
                        frontier.push(
                            Shadowcast {
                                left_angle: tables.slope(first, z),
                                right_angle: tables.slope(x, z),
                                top_angle: tables.slope(y, z),
                                bottom_angle: tables.slope(y + 1, z),
                                z: z + 1,
                            },
                        );
                        last_left = None;
                    },
                    None => {},
                }
                match *last_top {
                    Some(first) => {
                        frontier.push(
                            Shadowcast {
                                left_angle: current.left_angle,
                                right_angle: current.right_angle,
                                top_angle: tables.slope(first, z),
                                bottom_angle: tables.slope(y, z),
                                z: z + 1,
                            },
                        );
                        *last_top = None;
                    },
                    None => {},
                }
            }
            cut = true;
        } else {
            let pos = view.cell(x, y, z);
            let tile = grid.tile_at(pos);
            let in_shape = shape.holds_cell(pos, source_pos);
            assert(in_shape == (s.lit)(x as int, y as int, z as int));
            assert(tile.tile_type.transparent() == (s.open)(x as int, y as int, z as int));
            if in_shape {
                visits.push(Visit { pos, offset: (x, y, z) });
            }
            // On the last slice there is nothing behind the cell to keep books for.

            if recurse {
                if tile.tile_type.is_transparent() && in_shape {
                    last_left = Some(
                        match last_left {
                            Some(first) => first,
                            None => x,
                        },
                    );
                } else {
                    match *last_top {
                        Some(first) => {
                            frontier.push(
                                Shadowcast {
                                    left_angle: current.left_angle,
                                    right_angle: current.right_angle,
                                    top_angle: tables.slope(first, z),
                                    bottom_angle: tables.slope(y, z),
                                    z: z + 1,
                                },
                            );
                            *last_top = None;
                        },
                        None => {},
                    }
                    match last_left {
                        Some(first) => {
                            frontier.push(
                                Shadowcast {
                                    left_angle: tables.slope(first, z),
                                    right_angle: tables.slope(x, z),
                                    top_angle: tables.slope(y, z),
                                    bottom_angle: tables.slope(y + 1, z),
                                    z: z + 1,
                                },
                            );
                            last_left = None;
                        },
                        None => {},
                    }
                }
            }
        }
        proof {
            now = s.step_cell(*current, y as int, x as int, before);
            assert(visits@ =~= base_visits + visits_of(*view, now.visits));
            assert(frontier@ =~= base_frontier + now.pushes);
        }
        x += 1;
    }
    let ghost cells = now;
    // At the end of the row the run of clear cells, if one is open, ends.
    if !cut {
        match last_left {
            Some(first) => {
                if recurse {
                    if first == left {
                        // The whole row is clear.
                        *last_top = Some(
                            match *last_top {
                                Some(row) => row,
                                None => y,
                            },
                        );
                    } else {
                        frontier.push(
                            Shadowcast {
                                left_angle: tables.slope(first, z),
                                right_angle: current.right_angle,
                                top_angle: tables.slope(y, z),
                                bottom_angle: tables.slope(y + 1, z),
                                z: z + 1,
                            },
                        );
                    }
                }
            },
            None => {},
        }
    }
    proof {
        let end = s.end_row(*current, y as int, cells);
        assert(cells == s.scan_cells(*current, y as int, left as int, st));
        assert(frontier@ =~= base_frontier + end.pushes);
    }
}

} // verus!

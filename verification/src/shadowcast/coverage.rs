//! What a scan is sure to reach: a cell to whose near corner the way is
//! clear, and every cell in range where nothing blocks.

use vstd::prelude::*;
use vstd::arithmetic::div_mod::*;
use crate::shadowcast::laws::lemma_floor_at_nonnegative;
use crate::shadowcast::scan::{lemma_scan_frame_pushes, ScanState, Scene, Shadowcast};
use crate::shadowcast::slope::Slope;
use crate::util::distance_squared;

verus! {

impl Slope {
    /// Whether the tangent is at most `a / b`.
    pub open spec fn at_most(self, a: int, b: int) -> bool {
        self.num * b <= a * self.den
    }

    /// Whether the tangent is at least `a / b`.
    pub open spec fn at_least(self, a: int, b: int) -> bool {
        self.num * b >= a * self.den
    }
}

impl Shadowcast {
    /// Whether the wedge holds the ray from the origin to the near corner of
    /// the cell `t`, and begins on the depth axis.
    pub open spec fn aims_at(self, t: (int, int, int)) -> bool {
        &&& self.left_angle.num == 0
        &&& self.right_angle.at_least(t.0, t.2 + 1)
        &&& self.top_angle.at_most(t.1, t.2 + 1)
        &&& self.bottom_angle.at_least(t.1, t.2 + 1)
    }

    /// Whether the wedge `g` of the next slice goes on behind the cell in
    /// column `x` and row `y` of this wedge: it begins on the depth axis, and
    /// each other boundary of it is the boundary of this wedge or lies on the
    /// far side of the near corner of the cell.
    pub open spec fn goes_on_in(self, g: Shadowcast, x: int, y: int) -> bool {
        &&& g.left_angle.num == 0
        &&& (g.right_angle == self.right_angle || (g.right_angle.den == self.z + 1
            && g.right_angle.num >= x + 1))
        &&& (g.top_angle == self.top_angle || (g.top_angle.den == self.z + 1 && g.top_angle.num
            <= y))
        &&& (g.bottom_angle == self.bottom_angle || (g.bottom_angle.den == self.z + 1
            && g.bottom_angle.num >= y + 1))
    }
}

impl ScanState {
    /// Whether everything visited and pushed in `self` is still there in
    /// `later`, at the same places.
    pub open spec fn grows_to(self, later: ScanState) -> bool {
        self.visits.is_prefix_of(later.visits) && self.pushes.is_prefix_of(later.pushes)
    }
}

impl Scene {
    /// Every cell of the view lets light pass and lies in the shape of the
    /// light.
    pub open spec fn is_open(self) -> bool {
        forall|x: int, y: int, z: int| self.holds((x, y, z)) ==> #[trigger] self.clear(x, y, z)
    }

    /// Whether a wedge has been pushed that goes on behind the cell in column
    /// `x` and row `y` of the wedge `f`.
    pub open spec fn goes_on(self, f: Shadowcast, st: ScanState, x: int, y: int) -> bool {
        exists|i: int| 0 <= i < st.pushes.len() && f.goes_on_in(#[trigger] st.pushes[i], x, y)
    }

    /// Whether the run of clear rows is open and began no later than row `y`.
    pub open spec fn run_of_rows_holds(self, st: ScanState, y: int) -> bool {
        st.last_top matches Some(first) && 0 <= first <= y
    }

    /// The column, or the row, in which the ray to the near corner of a cell
    /// `a` columns, or rows, out in the slice at depth `depth` crosses the
    /// slice at depth `z`.
    pub open spec fn crossing(a: int, z: int, depth: int) -> int {
        ((z + 1) * a) / (depth + 1)
    }

    /// Whether, in the slice at depth `z`, the cell that the ray to the near
    /// corner of the cell `t` crosses is in range and clear, and with it the
    /// cells of its row from the first column on.
    pub open spec fn way_clear_at(self, t: (int, int, int), z: int) -> bool {
        self.clear_stretch(0, Self::crossing(t.0, z, t.2), Self::crossing(t.1, z, t.2), z)
    }

    /// Whether the way to the cell `t` is clear from the slice at depth
    /// `from` on: in every slice before that of `t`, the cell that the ray to
    /// the near corner of `t` crosses is in range and clear, and with it the
    /// cells of its row from the first column on.
    pub open spec fn way_clear(self, t: (int, int, int), from: int) -> bool {
        forall|z: int| from <= z < t.2 ==> #[trigger] self.way_clear_at(t, z)
    }

    /// Whether the cells of row `y` of the slice at depth `z`, from column
    /// `from` to column `to`, are all in range and clear.
    pub open spec fn clear_stretch(self, from: int, to: int, y: int, z: int) -> bool {
        forall|c: int|
            from <= c <= to ==> #[trigger] self.in_range(c, y, z) && self.clear(c, y, z)
    }
}

/// A cell that is no farther from the origin along any axis is no farther
/// from it.
pub proof fn lemma_distance_grows(x: int, y: int, z: int, u: int, v: int, w: int)
    requires
        0 <= x <= u,
        0 <= y <= v,
        0 <= z <= w,
    ensures
        distance_squared(x, y, z) <= distance_squared(u, v, w),
{
    assert(x * x <= u * u) by (nonlinear_arith)
        requires
            0 <= x <= u,
    ;
    assert(y * y <= v * v) by (nonlinear_arith)
        requires
            0 <= y <= v,
    ;
    assert(z * z <= w * w) by (nonlinear_arith)
        requires
            0 <= z <= w,
    ;
}

/// The scan of one cell keeps what was visited and pushed before.
pub proof fn lemma_step_cell_grows(s: Scene, f: Shadowcast, y: int, x: int, st: ScanState)
    ensures
        st.grows_to(s.step_cell(f, y, x, st)),
{
    let next = s.step_cell(f, y, x, st);
    assert(st.visits.is_prefix_of(next.visits)) by {
        if next.visits.len() > st.visits.len() {
            assert(next.visits == st.visits.push((x, y, f.z as int)));
        }
        assert(next.visits.subrange(0, st.visits.len() as int) =~= st.visits);
    }
    assert(st.pushes.is_prefix_of(next.pushes)) by {
        assert(next.pushes.subrange(0, st.pushes.len() as int) =~= st.pushes);
    }
}

/// Growth is transitive.
pub proof fn lemma_grows_chain(a: ScanState, b: ScanState, c: ScanState)
    requires
        a.grows_to(b),
        b.grows_to(c),
    ensures
        a.grows_to(c),
{
    assert(c.visits.subrange(0, a.visits.len() as int) =~= a.visits) by {
        assert(b.visits.subrange(0, a.visits.len() as int) == a.visits);
        assert(c.visits.subrange(0, b.visits.len() as int) == b.visits);
        assert forall|i: int| 0 <= i < a.visits.len() implies c.visits[i] == a.visits[i] by {
            assert(a.visits[i] == b.visits.subrange(0, a.visits.len() as int)[i]);
            assert(b.visits[i] == c.visits.subrange(0, b.visits.len() as int)[i]);
        }
    }
    assert(c.pushes.subrange(0, a.pushes.len() as int) =~= a.pushes) by {
        assert(b.pushes.subrange(0, a.pushes.len() as int) == a.pushes);
        assert(c.pushes.subrange(0, b.pushes.len() as int) == b.pushes);
        assert forall|i: int| 0 <= i < a.pushes.len() implies c.pushes[i] == a.pushes[i] by {
            assert(a.pushes[i] == b.pushes.subrange(0, a.pushes.len() as int)[i]);
            assert(b.pushes[i] == c.pushes.subrange(0, b.pushes.len() as int)[i]);
        }
    }
}

/// The scan of the cells of a row keeps what was visited and pushed before.
pub proof fn lemma_scan_cells_grows(s: Scene, f: Shadowcast, y: int, x: int, st: ScanState)
    ensures
        st.grows_to(s.scan_cells(f, y, x, st)),
    decreases s.right(f) + 1 - x,
{
    if x > s.right(f) || st.cut {
        assert(st.visits.subrange(0, st.visits.len() as int) =~= st.visits);
        assert(st.pushes.subrange(0, st.pushes.len() as int) =~= st.pushes);
    } else {
        let next = s.step_cell(f, y, x, st);
        lemma_step_cell_grows(s, f, y, x, st);
        lemma_scan_cells_grows(s, f, y, x + 1, next);
        lemma_grows_chain(st, next, s.scan_cells(f, y, x + 1, next));
    }
}

/// The end of a row keeps what was visited and pushed before.
pub proof fn lemma_end_row_grows(s: Scene, f: Shadowcast, y: int, st: ScanState)
    ensures
        st.grows_to(s.end_row(f, y, st)),
{
    let next = s.end_row(f, y, st);
    assert(next.visits.subrange(0, st.visits.len() as int) =~= st.visits);
    assert(next.pushes.subrange(0, st.pushes.len() as int) =~= st.pushes);
}

/// The scan of the rows of a wedge keeps what was visited and pushed before.
pub proof fn lemma_scan_rows_grows(s: Scene, f: Shadowcast, y: int, st: ScanState)
    ensures
        st.grows_to(s.scan_rows(f, y, st)),
    decreases s.bottom(f) + 1 - y,
{
    if y > s.bottom(f) {
        assert(st.visits.subrange(0, st.visits.len() as int) =~= st.visits);
        assert(st.pushes.subrange(0, st.pushes.len() as int) =~= st.pushes);
    } else {
        let cells = s.scan_cells(f, y, s.left(f), st);
        let end = s.end_row(f, y, cells);
        lemma_scan_cells_grows(s, f, y, s.left(f), st);
        lemma_end_row_grows(s, f, y, cells);
        lemma_grows_chain(st, cells, end);
        lemma_scan_rows_grows(s, f, y + 1, end);
        lemma_grows_chain(st, end, s.scan_rows(f, y + 1, end));
    }
}

/// The end of the scan of a wedge keeps what was visited and pushed before.
pub proof fn lemma_finish_grows(s: Scene, f: Shadowcast, st: ScanState)
    ensures
        st.grows_to(s.finish(f, st)),
{
    let next = s.finish(f, st);
    assert(next.visits.subrange(0, st.visits.len() as int) =~= st.visits);
    assert(next.pushes.subrange(0, st.pushes.len() as int) =~= st.pushes);
}

/// What was visited stays visited, and a wedge that goes on behind a cell
/// stays pushed, as the state grows.
pub proof fn lemma_grows_keeps(
    s: Scene,
    f: Shadowcast,
    a: ScanState,
    b: ScanState,
    t: (int, int, int),
    x: int,
    y: int,
)
    requires
        a.grows_to(b),
    ensures
        a.visits.contains(t) ==> b.visits.contains(t),
        s.goes_on(f, a, x, y) ==> s.goes_on(f, b, x, y),
{
    if a.visits.contains(t) {
        let i = choose|i: int| 0 <= i < a.visits.len() && a.visits[i] == t;
        assert(b.visits.subrange(0, a.visits.len() as int)[i] == b.visits[i]);
        assert(b.visits[i] == t);
    }
    if s.goes_on(f, a, x, y) {
        let i = choose|i: int| 0 <= i < a.pushes.len() && f.goes_on_in(#[trigger] a.pushes[i], x, y);
        assert(b.pushes.subrange(0, a.pushes.len() as int)[i] == b.pushes[i]);
        assert(f.goes_on_in(b.pushes[i], x, y));
    }
}

/// In a row whose cells are in range from column `from` to column `x`, the
/// cell in column `x` is visited if it lies in the shape of the light.
proof fn lemma_cells_reach(s: Scene, f: Shadowcast, y: int, from: int, x: int, st: ScanState)
    requires
        !st.cut,
        from <= x <= s.right(f),
        forall|c: int| from <= c <= x ==> #[trigger] s.in_range(c, y, f.z as int),
        (s.lit)(x, y, f.z as int),
    ensures
        s.scan_cells(f, y, from, st).visits.contains((x, y, f.z as int)),
    decreases x - from,
{
    let t = (x, y, f.z as int);
    let next = s.step_cell(f, y, from, st);
    assert(s.in_range(from, y, f.z as int));
    if from == x {
        assert(next.visits.last() == t);
        assert(next.visits.contains(t));
        lemma_scan_cells_grows(s, f, y, from + 1, next);
        lemma_grows_keeps(s, f, next, s.scan_cells(f, y, from + 1, next), t, 0, 0);
    } else {
        lemma_cells_reach(s, f, y, from + 1, x, next);
    }
}

/// In a wedge, a cell of the shape is visited if the cells of its row are in
/// range from the first column of the wedge up to it.
proof fn lemma_rows_reach(s: Scene, f: Shadowcast, from: int, st: ScanState, x: int, y: int)
    requires
        !st.cut,
        from <= y <= s.bottom(f),
        s.left(f) <= x <= s.right(f),
        forall|c: int| s.left(f) <= c <= x ==> #[trigger] s.in_range(c, y, f.z as int),
        (s.lit)(x, y, f.z as int),
    ensures
        s.scan_rows(f, from, st).visits.contains((x, y, f.z as int)),
    decreases y - from,
{
    let t = (x, y, f.z as int);
    let cells = s.scan_cells(f, from, s.left(f), st);
    let end = s.end_row(f, from, cells);
    if from == y {
        lemma_cells_reach(s, f, y, s.left(f), x, st);
        lemma_end_row_grows(s, f, y, cells);
        lemma_grows_keeps(s, f, cells, end, t, 0, 0);
        lemma_scan_rows_grows(s, f, y + 1, end);
        lemma_grows_keeps(s, f, end, s.scan_rows(f, y + 1, end), t, 0, 0);
    } else {
        lemma_rows_reach(s, f, from + 1, end, x, y);
    }
}

/// The scan of a wedge visits a cell of the shape that lies in its columns
/// and rows if the cells of its row are in range from the first column of
/// the wedge up to it.
pub proof fn lemma_frame_reaches(s: Scene, f: Shadowcast, x: int, y: int)
    requires
        s.left(f) <= x <= s.right(f),
        s.top(f) <= y <= s.bottom(f),
        forall|c: int| s.left(f) <= c <= x ==> #[trigger] s.in_range(c, y, f.z as int),
        (s.lit)(x, y, f.z as int),
    ensures
        s.scan_frame(f).visits.contains((x, y, f.z as int)),
{
    let rows = s.scan_rows(f, s.top(f), ScanState::start());
    lemma_rows_reach(s, f, s.top(f), ScanState::start(), x, y);
    lemma_finish_grows(s, f, rows);
    lemma_grows_keeps(s, f, rows, s.finish(f, rows), (x, y, f.z as int), 0, 0);
}

/// The run of clear rows never begins after the row that is scanned.
proof fn lemma_cells_keep_top(s: Scene, f: Shadowcast, row: int, x: int, st: ScanState, y: int)
    requires
        st.last_top matches Some(first) ==> 0 <= first <= y,
    ensures
        s.scan_cells(f, row, x, st).last_top matches Some(first) ==> 0 <= first <= y,
    decreases s.right(f) + 1 - x,
{
    if x > s.right(f) || st.cut {
    } else {
        lemma_cells_keep_top(s, f, row, x + 1, s.step_cell(f, row, x, st), y);
    }
}

/// In a row behind row `y`, either the run of clear rows that held row `y`
/// goes on, or a wedge is pushed that goes on behind the cell.
proof fn lemma_cells_keep_run(
    s: Scene,
    f: Shadowcast,
    row: int,
    col: int,
    st: ScanState,
    x: int,
    y: int,
)
    requires
        f.left_angle.num == 0,
        s.recurses(f),
        y < row < s.height,
        s.goes_on(f, st, x, y) || s.run_of_rows_holds(st, y),
    ensures
        s.goes_on(f, s.scan_cells(f, row, col, st), x, y) || s.run_of_rows_holds(
            s.scan_cells(f, row, col, st),
            y,
        ),
    decreases s.right(f) + 1 - col,
{
    if col > s.right(f) || st.cut {
    } else {
        let next = s.step_cell(f, row, col, st);
        if s.goes_on(f, st, x, y) {
            lemma_step_cell_grows(s, f, row, col, st);
            lemma_grows_keeps(s, f, st, next, (0, 0, 0), x, y);
        } else {
            let first = st.last_top->Some_0;
            let child = f.rows_child(first, row);
            assert(f.goes_on_in(child, x, y));
            if !s.in_range(col, row, f.z as int) {
                let i = st.flush_run(f, col, row).pushes.len() as int;
                assert(next.pushes[i] == child);
            } else if !s.clear(col, row, f.z as int) {
                let i = st.pushes.len() as int;
                assert(next.pushes[i] == child);
            } else {
            }
        }
        lemma_cells_keep_run(s, f, row, col + 1, next, x, y);
    }
}

/// In row `y`, behind a stretch of clear cells from the first column to
/// column `x`, either the row stays clear to its end, or a wedge is pushed
/// that goes on behind the cell in column `x`.
proof fn lemma_target_cells(s: Scene, f: Shadowcast, y: int, col: int, st: ScanState, x: int)
    requires
        f.left_angle.num == 0,
        s.recurses(f),
        0 <= col,
        0 <= x <= s.right(f),
        0 <= y < s.height,
        s.right(f) < s.width,
        col <= x ==> s.clear_stretch(col, x, y, f.z as int),
        st.last_top matches Some(first) ==> 0 <= first <= y,
        col <= x ==> !st.cut && (if col > 0 {
            st.last_left == Some(0int)
        } else {
            st.last_left is None
        }),
        col > x ==> s.goes_on(f, st, x, y) || (!st.cut && st.last_left == Some(0int)),
    ensures
        ({
            let end = s.scan_cells(f, y, col, st);
            &&& end.last_top matches Some(first) ==> 0 <= first <= y
            &&& s.goes_on(f, end, x, y) || (!end.cut && end.last_left == Some(0int))
        }),
    decreases s.right(f) + 1 - col,
{
    if col > s.right(f) || st.cut {
    } else {
        let next = s.step_cell(f, y, col, st);
        if col <= x {
            assert(s.in_range(col, y, f.z as int) && s.clear(col, y, f.z as int));
            assert(s.clear_stretch(col + 1, x, y, f.z as int));
        } else if s.goes_on(f, st, x, y) {
            lemma_step_cell_grows(s, f, y, col, st);
            lemma_grows_keeps(s, f, st, next, (0, 0, 0), x, y);
        } else {
            let child = f.run_child(0, col, y);
            assert(f.goes_on_in(child, x, y));
            if !s.in_range(col, y, f.z as int) {
                let i = st.pushes.len() as int;
                assert(next.pushes[i] == child);
            } else if !s.clear(col, y, f.z as int) {
                let i = st.flush_rows(f, y).pushes.len() as int;
                assert(next.pushes[i] == child);
            } else {
            }
        }
        lemma_target_cells(s, f, y, col + 1, next, x);
    }
}

/// From row `from` on, the scan of a wedge either keeps a run of clear rows
/// that holds row `y`, or pushes a wedge that goes on behind the cell in
/// column `x` of row `y`, if the cells of that row are clear from the first
/// column up to it.
proof fn lemma_rows_go_on(s: Scene, f: Shadowcast, from: int, st: ScanState, x: int, y: int)
    requires
        s.wf(),
        f.left_angle.num == 0,
        s.left(f) == 0,
        s.recurses(f),
        0 <= from,
        0 <= x <= s.right(f),
        0 <= y <= s.bottom(f),
        s.clear_stretch(0, x, y, f.z as int),
        st.last_left is None,
        !st.cut,
        from <= y ==> (st.last_top matches Some(first) ==> 0 <= first <= y),
        from > y ==> s.goes_on(f, st, x, y) || s.run_of_rows_holds(st, y),
    ensures
        s.goes_on(f, s.scan_rows(f, from, st), x, y) || s.run_of_rows_holds(
            s.scan_rows(f, from, st),
            y,
        ),
    decreases s.bottom(f) + 1 - from,
{
    if from > s.bottom(f) {
    } else {
        let cells = s.scan_cells(f, from, 0, st);
        let end = s.end_row(f, from, cells);
        if from < y {
            lemma_cells_keep_top(s, f, from, 0, st, y);
        } else if from == y {
            lemma_target_cells(s, f, y, 0, st, x);
            if s.goes_on(f, cells, x, y) {
                lemma_end_row_grows(s, f, y, cells);
                lemma_grows_keeps(s, f, cells, end, (0, 0, 0), x, y);
            }
        } else {
            lemma_cells_keep_run(s, f, from, 0, st, x, y);
            if s.goes_on(f, cells, x, y) {
                lemma_end_row_grows(s, f, from, cells);
                lemma_grows_keeps(s, f, cells, end, (0, 0, 0), x, y);
            }
        }
        lemma_rows_go_on(s, f, from + 1, end, x, y);
    }
}

/// The boundary along the depth axis touches the first cell of every slice.
proof fn lemma_zero_slope_floor(a: Slope, z: int)
    requires
        a.wf(),
        a.num == 0,
    ensures
        a.floor_at(z) == 0,
{
    assert((z + 1) * 0 == 0) by (nonlinear_arith);
    lemma_div_basics(a.den as int);
}

/// Behind a stretch of clear cells, the scan goes on: if the cells of row `y`
/// of a wedge that begins on the depth axis are in range and clear from the
/// first column to column `x`, the scan of the wedge pushes a wedge that
/// goes on behind the cell in column `x` of row `y`.
pub proof fn lemma_frame_goes_on(s: Scene, f: Shadowcast, x: int, y: int)
    requires
        s.wf(),
        f.wf(),
        f.left_angle.num == 0,
        s.recurses(f),
        0 <= x <= s.right(f),
        s.top(f) <= y <= s.bottom(f),
        s.clear_stretch(0, x, y, f.z as int),
    ensures
        s.goes_on(f, s.scan_frame(f), x, y),
{
    lemma_zero_slope_floor(f.left_angle, f.z as int);
    lemma_floor_at_nonnegative(f.top_angle, f.z as int);
    let rows = s.scan_rows(f, s.top(f), ScanState::start());
    let end = s.finish(f, rows);
    lemma_rows_go_on(s, f, s.top(f), ScanState::start(), x, y);
    if s.goes_on(f, rows, x, y) {
        lemma_finish_grows(s, f, rows);
        lemma_grows_keeps(s, f, rows, end, (0, 0, 0), x, y);
    } else {
        let first = rows.last_top->Some_0;
        let i = rows.pushes.len() as int;
        if first == s.top(f) {
            assert(end.pushes[i] == f.full_child());
        } else {
            assert(end.pushes[i] == f.trailing_child(first));
        }
        assert(f.goes_on_in(end.pushes[i], x, y));
    }
}

/// Where the ray to a point `a` steps out in a slice `d` steps away crosses
/// a slice `n` steps away: in cell `n * a / d`, which is no farther out than
/// `a`.
proof fn lemma_projection(a: int, n: int, d: int)
    requires
        0 <= a,
        0 < n <= d,
    ensures
        0 <= (n * a) / d <= a,
        ((n * a) / d) * d <= n * a < ((n * a) / d + 1) * d,
        n == d ==> (n * a) / d == a,
{
    let p = (n * a) / d;
    assert(0 <= n * a) by (nonlinear_arith)
        requires
            0 <= a,
            0 < n,
    ;
    lemma_fundamental_div_mod(n * a, d);
    lemma_mod_bound(n * a, d);
    lemma_div_pos_is_pos(n * a, d);
    assert(p * d == d * p) by (nonlinear_arith);
    assert((p + 1) * d == d * p + d) by (nonlinear_arith);
    assert(p <= a) by (nonlinear_arith)
        requires
            d * p <= n * a,
            0 <= a,
            0 < n <= d,
            0 <= p,
    {
        assert(n * a <= d * a);
        if p > a {
            assert(d * p >= d * (a + 1));
            assert(d * (a + 1) == d * a + d);
        }
    }
    if n == d {
        lemma_div_multiples_vanish(a, d);
        assert(n * a == d * a);
    }
}

/// A boundary at most as steep as a ray touches, in any slice, no cell
/// beyond the one in which the ray crosses the slice.
proof fn lemma_floor_below(a: Slope, n: int, v: int, d: int)
    requires
        a.wf(),
        a.at_most(v, d),
        0 < n,
        0 < d,
        0 <= v,
    ensures
        (n * a.num) / (a.den as int) <= (n * v) / d,
{
    let den = a.den as int;
    let q = (n * a.num) / den;
    let p = (n * v) / d;
    assert(0 <= n * a.num) by (nonlinear_arith)
        requires
            0 < n,
            0 <= a.num,
    ;
    assert(0 <= n * v) by (nonlinear_arith)
        requires
            0 < n,
            0 <= v,
    ;
    lemma_fundamental_div_mod(n * a.num, den);
    lemma_mod_bound(n * a.num, den);
    lemma_fundamental_div_mod(n * v, d);
    lemma_mod_bound(n * v, d);
    lemma_div_pos_is_pos(n * a.num, den);
    if q > p {
        // q * den <= n * num and num * d <= v * den give q * d <= n * v < (p + 1) * d.
        assert(q * d * den <= n * v * den) by (nonlinear_arith)
            requires
                den * q <= n * a.num,
                a.num * d <= v * den,
                0 < n,
                0 < d,
                0 <= q,
        {
            assert(den * q * d <= n * a.num * d);
            assert(n * (a.num * d) <= n * (v * den));
        }
        assert(q * d <= n * v) by (nonlinear_arith)
            requires
                q * d * den <= n * v * den,
                0 < den,
        ;
        assert(q * d >= (p + 1) * d) by (nonlinear_arith)
            requires
                q >= p + 1,
                0 < d,
        ;
        assert((p + 1) * d == d * p + d) by (nonlinear_arith);
    }
}

/// A boundary at least as steep as a ray touches, in any slice, the cell in
/// which the ray crosses the slice or one beyond it.
proof fn lemma_ceil_above(a: Slope, n: int, v: int, d: int)
    requires
        a.wf(),
        a.at_least(v, d),
        0 < n,
        0 < d,
        0 <= v,
    ensures
        (n * a.num + a.den - 1) / (a.den as int) >= (n * v) / d,
{
    let den = a.den as int;
    let c = (n * a.num + den - 1) / den;
    let p = (n * v) / d;
    assert(0 <= n * a.num) by (nonlinear_arith)
        requires
            0 < n,
            0 <= a.num,
    ;
    assert(0 <= n * v) by (nonlinear_arith)
        requires
            0 < n,
            0 <= v,
    ;
    lemma_fundamental_div_mod(n * a.num + den - 1, den);
    lemma_mod_bound(n * a.num + den - 1, den);
    lemma_fundamental_div_mod(n * v, d);
    lemma_mod_bound(n * v, d);
    lemma_div_pos_is_pos(n * v, d);
    if c < p {
        // c * den >= n * num and num * d >= v * den give c * d >= n * v >= p * d.
        assert(den * c >= n * a.num);
        assert(c * d * den >= n * v * den) by (nonlinear_arith)
            requires
                den * c >= n * a.num,
                a.num * d >= v * den,
                0 < n,
                0 < d,
        {
            assert(den * c * d >= n * a.num * d);
            assert(n * (a.num * d) >= n * (v * den));
        }
        assert(c * d >= n * v) by (nonlinear_arith)
            requires
                c * d * den >= n * v * den,
                0 < den,
        ;
        assert(c * d <= (p - 1) * d) by (nonlinear_arith)
            requires
                c <= p - 1,
                0 < d,
        ;
        assert((p - 1) * d == d * p - d) by (nonlinear_arith);
    }
}

/// A wedge that goes on behind the cell in which the ray to `t` crosses the
/// slice of a wedge that holds the ray, holds the ray too.
proof fn lemma_child_aims(f: Shadowcast, g: Shadowcast, t: (int, int, int), x: int, y: int)
    requires
        f.aims_at(t),
        f.goes_on_in(g, x, y),
        0 <= f.z,
        0 <= t.0,
        0 <= t.1,
        0 <= t.2,
        x * (t.2 + 1) <= (f.z + 1) * t.0 < (x + 1) * (t.2 + 1),
        y * (t.2 + 1) <= (f.z + 1) * t.1 < (y + 1) * (t.2 + 1),
    ensures
        g.aims_at(t),
{
    let d = t.2 + 1;
    let n = f.z + 1;
    if g.right_angle != f.right_angle {
        assert(g.right_angle.num * d >= t.0 * n) by (nonlinear_arith)
            requires
                g.right_angle.num >= x + 1,
                n * t.0 < (x + 1) * d,
                0 < d,
        {
            assert(g.right_angle.num * d >= (x + 1) * d);
        }
    }
    if g.top_angle != f.top_angle {
        assert(g.top_angle.num * d <= t.1 * n) by (nonlinear_arith)
            requires
                0 <= g.top_angle.num <= y,
                y * d <= n * t.1,
                0 < d,
        {
            assert(g.top_angle.num * d <= y * d);
        }
    }
    if g.bottom_angle != f.bottom_angle {
        assert(g.bottom_angle.num * d >= t.1 * n) by (nonlinear_arith)
            requires
                g.bottom_angle.num >= y + 1,
                n * t.1 < (y + 1) * d,
                0 < d,
        {
            assert(g.bottom_angle.num * d >= (y + 1) * d);
        }
    }
}

/// What the scan of a pushed wedge visits is visited by the scans of all the
/// pushed wedges.
pub proof fn lemma_children_include(
    s: Scene,
    cs: Seq<Shadowcast>,
    z: int,
    i: int,
    t: (int, int, int),
)
    requires
        0 <= i < cs.len(),
        cs[i].z == z,
        s.wedge_visits(cs[i]).contains(t),
    ensures
        s.children_visits(cs, z).contains(t),
    decreases cs.len(),
{
    let rest = s.children_visits(cs.drop_last(), z);
    if i == cs.len() - 1 {
        let own = s.wedge_visits(cs.last());
        let k = choose|k: int| 0 <= k < own.len() && own[k] == t;
        assert((own + rest)[k] == t);
    } else {
        assert(cs.drop_last()[i] == cs[i]);
        lemma_children_include(s, cs.drop_last(), z, i, t);
        let k = choose|k: int| 0 <= k < rest.len() && rest[k] == t;
        if cs.last().z == z {
            let own = s.wedge_visits(cs.last());
            assert((own + rest)[own.len() + k] == t);
        }
    }
}

/// The scan of a wedge that holds the ray to a cell reaches that cell if the
/// cell is in range and in the shape of the light and the way to it is
/// clear.
pub proof fn lemma_aimed_wedge_reaches(s: Scene, f: Shadowcast, t: (int, int, int))
    requires
        s.wf(),
        f.wf(),
        f.z <= t.2,
        s.holds(t),
        s.in_range(t.0, t.1, t.2),
        (s.lit)(t.0, t.1, t.2),
        s.way_clear(t, f.z as int),
        f.aims_at(t),
    ensures
        s.wedge_visits(f).contains(t),
    decreases t.2 - f.z,
{
    let z = f.z as int;
    let n = z + 1;
    let d = t.2 + 1;
    let x = (n * t.0) / d;
    let y = (n * t.1) / d;
    lemma_projection(t.0, n, d);
    lemma_projection(t.1, n, d);
    lemma_zero_slope_floor(f.left_angle, z);
    lemma_floor_below(f.top_angle, n, t.1, d);
    lemma_ceil_above(f.bottom_angle, n, t.1, d);
    lemma_ceil_above(f.right_angle, n, t.0, d);
    assert(s.left(f) == 0);
    assert(x <= s.right(f));
    assert(s.top(f) <= y <= s.bottom(f));
    let own = s.scan_frame(f);
    if z == t.2 {
        assert forall|c: int| 0 <= c <= x implies #[trigger] s.in_range(c, y, z) by {
            lemma_distance_grows(c, y, z, t.0, t.1, t.2);
        }
        lemma_frame_reaches(s, f, x, y);
        let k = choose|k: int| 0 <= k < own.visits.len() && own.visits[k] == t;
        assert(s.wedge_visits(f)[k] == t);
    } else {
        assert(s.way_clear_at(t, z));
        lemma_frame_goes_on(s, f, x, y);
        lemma_scan_frame_pushes(s, f);
        let i = choose|i: int| 0 <= i < own.pushes.len() && f.goes_on_in(#[trigger] own.pushes[i], x, y);
        let g = own.pushes[i];
        assert(s.child_ok(f, g));
        lemma_child_aims(f, g, t, x, y);
        lemma_aimed_wedge_reaches(s, g, t);
        lemma_children_include(s, own.pushes, z + 1, i, t);
        let rest = s.children_visits(own.pushes, z + 1);
        let k = choose|k: int| 0 <= k < rest.len() && rest[k] == t;
        assert(s.wedge_visits(f)[own.visits.len() + k] == t);
    }
}

/// The ray to a cell whose column and row are at most one more than its
/// depth lies in the wedge with which a scan begins.
proof fn lemma_root_aims(t: (int, int, int))
    requires
        0 <= t.0 <= t.2 + 1,
        0 <= t.1 <= t.2 + 1,
    ensures
        Shadowcast::root().aims_at(t),
{
    let root = Shadowcast::root();
    assert(root.right_angle.at_least(t.0, t.2 + 1)) by (nonlinear_arith)
        requires
            root.right_angle.num == 1,
            root.right_angle.den == 1,
            t.0 <= t.2 + 1,
    ;
    assert(root.top_angle.at_most(t.1, t.2 + 1)) by (nonlinear_arith)
        requires
            root.top_angle.num == 0,
            root.top_angle.den == 1,
            0 <= t.1,
    ;
    assert(root.bottom_angle.at_least(t.1, t.2 + 1)) by (nonlinear_arith)
        requires
            root.bottom_angle.num == 1,
            root.bottom_angle.den == 1,
            t.1 <= t.2 + 1,
    ;
}

/// A clear sightline. A scan reaches a cell in range and in the shape of the
/// light, whose column and row are at most one more than its depth, if the
/// way to it is clear: if, in every slice before its own, the cell that the
/// ray to its near corner crosses is in range and clear, and with it the
/// cells of its row from the first column on. What lies elsewhere does not
/// matter.
pub proof fn lemma_clear_way_is_reached(s: Scene, t: (int, int, int))
    requires
        s.wf(),
        s.holds(t),
        s.in_range(t.0, t.1, t.2),
        (s.lit)(t.0, t.1, t.2),
        s.way_clear(t, 0),
        t.0 <= t.2 + 1,
        t.1 <= t.2 + 1,
    ensures
        s.scan_visits().contains(t),
{
    lemma_root_aims(t);
    lemma_aimed_wedge_reaches(s, Shadowcast::root(), t);
}

/// Where nothing blocks, a scan reaches every cell in range whose column and
/// row are at most one more than its depth.
pub proof fn lemma_open_scan_covers(s: Scene, t: (int, int, int))
    requires
        s.wf(),
        s.is_open(),
        s.holds(t),
        s.in_range(t.0, t.1, t.2),
        t.0 <= t.2 + 1,
        t.1 <= t.2 + 1,
    ensures
        s.scan_visits().contains(t),
{
    assert forall|z: int| 0 <= z < t.2 implies #[trigger] s.way_clear_at(t, z) by {
        let x = Scene::crossing(t.0, z, t.2);
        let y = Scene::crossing(t.1, z, t.2);
        lemma_projection(t.0, z + 1, t.2 + 1);
        lemma_projection(t.1, z + 1, t.2 + 1);
        assert forall|c: int| 0 <= c <= x implies #[trigger] s.in_range(c, y, z) && s.clear(c, y, z) by {
            lemma_distance_grows(c, y, z, t.0, t.1, t.2);
            assert(s.holds((c, y, z)));
        }
    }
    assert(s.holds(t));
    assert(s.clear(t.0, t.1, t.2));
    lemma_clear_way_is_reached(s, t);
}

} // verus!

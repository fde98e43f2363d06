//! Lookup tables for the casting of light, and a bounds test.

use vstd::prelude::*;
use crate::geometry::point::GridCoord;
use crate::shadowcast::slope::Slope;
use crate::world::grid::TileGrid;

verus! {

/// The square of the distance between a cell and the cell `x`, `y` and `z`
/// steps away from it along the axes.
pub open spec fn distance_squared(x: int, y: int, z: int) -> int {
    x * x + y * y + z * z
}

/// Tables of the squared distances and of the tangents that a cast of light
/// needs, for every offset up to a largest range. They are filled once and
/// only read afterwards.
pub struct LookupTables {
    max_range: usize,
    distance: Vec<Vec<Vec<usize>>>,
    atan: Vec<Vec<Slope>>,
}

impl LookupTables {
    #[verifier::type_invariant]
    spec fn inv(self) -> bool {
        &&& self.max_range < usize::MAX
        &&& Self::buildable(self.max_range as int)
        &&& self.distance@.len() == self.max_range + 1
        &&& forall|x: int|
            0 <= x <= self.max_range ==> (#[trigger] self.distance@[x])@.len() == self.max_range
                + 1
        &&& forall|x: int, y: int|
            0 <= x <= self.max_range && 0 <= y <= self.max_range ==> (
            #[trigger] self.distance@[x]@[y])@.len() == self.max_range + 1
        &&& forall|x: int, y: int, z: int|
            0 <= x <= self.max_range && 0 <= y <= self.max_range && 0 <= z <= self.max_range
                ==> #[trigger] self.distance@[x]@[y]@[z] == distance_squared(x, y, z)
        &&& self.atan@.len() == self.max_range + 1
        &&& forall|x: int|
            0 <= x <= self.max_range ==> (#[trigger] self.atan@[x])@.len() == self.max_range + 1
        &&& forall|x: int, z: int|
            0 <= x <= self.max_range && 0 <= z <= self.max_range ==> #[trigger] self.atan@[x]@[z]
                == Slope::of_cell(x, z)
    }

    /// The largest offset along an axis that the tables cover.
    pub closed spec fn spec_max_range(self) -> nat {
        self.max_range as nat
    }

    /// Whether tables up to `max_range` can be built: the largest squared
    /// distance in them must be a representable number.
    pub open spec fn buildable(max_range: int) -> bool {
        3 * (max_range * max_range) <= usize::MAX
    }

    /// Tables that cover every offset from 0 to `max_range` along each axis;
    /// `None` where `max_range` is too large for that.
    pub fn new(max_range: usize) -> (r: Option<Self>)
        ensures
            r.is_some() <==> Self::buildable(max_range as int),
            r matches Some(t) ==> t.spec_max_range() == max_range,
    {
        let square = match max_range.checked_mul(max_range) {
            Some(v) => v,
            None => {
                return None;
            },
        };
        if square > usize::MAX / 3 {
            return None;
        }
        assert(max_range < usize::MAX) by (nonlinear_arith)
            requires
                3 * (max_range * max_range) <= usize::MAX,
        ;
        let size = max_range + 1;
        let mut distance: Vec<Vec<Vec<usize>>> = Vec::new();
        let mut atan: Vec<Vec<Slope>> = Vec::new();
        let mut x: usize = 0;
        while x < size
            invariant
                size == max_range + 1,
                3 * (max_range * max_range) <= usize::MAX,
                x <= size,
                distance@.len() == x,
                atan@.len() == x,
                forall|i: int| 0 <= i < x ==> (#[trigger] distance@[i])@.len() == size,
                forall|i: int, j: int|
                    0 <= i < x && 0 <= j < size ==> (#[trigger] distance@[i]@[j])@.len() == size,
                forall|i: int, j: int, k: int|
                    0 <= i < x && 0 <= j < size && 0 <= k < size ==> #[trigger] distance@[i]@[j]@[k]
                        == distance_squared(i, j, k),
                forall|i: int| 0 <= i < x ==> (#[trigger] atan@[i])@.len() == size,
                forall|i: int, k: int|
                    0 <= i < x && 0 <= k < size ==> #[trigger] atan@[i]@[k] == Slope::of_cell(i, k),
            decreases size - x,
        {
            let mut plane: Vec<Vec<usize>> = Vec::new();
            let mut y: usize = 0;
            while y < size
                invariant
                    size == max_range + 1,
                    3 * (max_range * max_range) <= usize::MAX,
                    x < size,
                    y <= size,
                    plane@.len() == y,
                    forall|j: int| 0 <= j < y ==> (#[trigger] plane@[j])@.len() == size,
                    forall|j: int, k: int|
                        0 <= j < y && 0 <= k < size ==> #[trigger] plane@[j]@[k]
                            == distance_squared(x as int, j, k),
                decreases size - y,
            {
                let mut row: Vec<usize> = Vec::new();
                let mut z: usize = 0;
                while z < size
                    invariant
                        size == max_range + 1,
                        3 * (max_range * max_range) <= usize::MAX,
                        x < size,
                        y < size,
                        z <= size,
                        row@.len() == z,
                        forall|k: int|
                            0 <= k < z ==> #[trigger] row@[k] == distance_squared(
                                x as int,
                                y as int,
                                k,
                            ),
                    decreases size - z,
                {
                    proof {
                        lemma_square_le(x as int, max_range as int);
                        lemma_square_le(y as int, max_range as int);
                        lemma_square_le(z as int, max_range as int);
                    }
                    row.push(x * x + y * y + z * z);
                    z += 1;
                }
                plane.push(row);
                y += 1;
            }
            distance.push(plane);
            let mut slopes: Vec<Slope> = Vec::new();
            let mut z: usize = 0;
            while z < size
                invariant
                    size == max_range + 1,
                    max_range < usize::MAX,
                    x < size,
                    z <= size,
                    slopes@.len() == z,
                    forall|k: int| 0 <= k < z ==> #[trigger] slopes@[k] == Slope::of_cell(x as int, k),
                decreases size - z,
            {
                slopes.push(Slope::from_cell(x, z));
                z += 1;
            }
            atan.push(slopes);
            x += 1;
        }
        Some(LookupTables { max_range, distance, atan })
    }

    /// The largest offset along an axis that the tables cover.
    pub fn max_range(&self) -> (m: usize)
        ensures
            m == self.spec_max_range(),
            Self::buildable(m as int),
    {
        proof {
            use_type_invariant(self);
        }
        self.max_range
    }

    /// The squared distance of the offset `(x, y, z)`.
    pub fn distance_squared(&self, x: usize, y: usize, z: usize) -> (d: usize)
        requires
            x <= self.spec_max_range(),
            y <= self.spec_max_range(),
            z <= self.spec_max_range(),
        ensures
            d == distance_squared(x as int, y as int, z as int),
    {
        proof {
            use_type_invariant(self);
        }
        self.distance[x][y][z]
    }

    /// The tangent of the boundary on the near edge of cell `k` in the slice
    /// at depth `z`: `k / (z + 1)`.
    pub fn slope(&self, k: usize, z: usize) -> (s: Slope)
        requires
            k <= self.spec_max_range(),
            z <= self.spec_max_range(),
        ensures
            s == Slope::of_cell(k as int, z as int),
            s.wf(),
    {
        proof {
            use_type_invariant(self);
        }
        self.atan[k][z]
    }
}

/// Squaring keeps the order of numbers that are not negative.
proof fn lemma_square_le(a: int, b: int)
    requires
        0 <= a <= b,
    ensures
        0 <= a * a <= b * b,
{
    assert(0 <= a * a <= b * b) by (nonlinear_arith)
        requires
            0 <= a <= b,
    ;
}

/// Whether `pos` is the index of a cell of the grid.
pub fn is_in_array(array: &TileGrid, pos: GridCoord) -> (b: bool)
    ensures
        b == array@.contains(pos.x as int, pos.y as int, pos.z as int),
{
    let (w, h, d) = array.dim();
    pos.x < w && pos.y < h && pos.z < d
}

} // verus!

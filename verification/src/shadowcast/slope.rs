//! The boundaries of a wedge: exact tangents of angles.

use vstd::prelude::*;
use vstd::arithmetic::div_mod::*;
use vstd::arithmetic::mul::*;

verus! {

/// The tangent of the angle between a boundary of a wedge and the depth axis,
/// as the fraction `num / den`. The angle itself is never formed: a boundary
/// that passes the edge of cell `k` in the slice at depth `z` has the
/// tangent `k / (z + 1)`, and from a tangent the cells it bounds in any slice
/// follow by integer division.
#[derive(Clone, Copy, Debug, PartialEq, Eq, Structural)]
pub struct Slope {
    pub num: usize,
    pub den: usize,
}

/// The smaller of two numbers.
pub open spec fn min_int(a: int, b: int) -> int {
    if a <= b {
        a
    } else {
        b
    }
}

impl Slope {
    /// A fraction needs a denominator other than zero.
    pub open spec fn wf(self) -> bool {
        self.den > 0
    }

    /// The tangent of the boundary on the near edge of cell `k` in the slice
    /// at depth `z`.
    pub open spec fn of_cell(k: int, z: int) -> Slope {
        Slope { num: k as usize, den: (z + 1) as usize }
    }

    /// The boundary along the depth axis.
    pub open spec fn zero() -> Slope {
        Slope { num: 0, den: 1 }
    }

    /// The boundary on the diagonal, at an eighth of a turn.
    pub open spec fn diagonal() -> Slope {
        Slope { num: 1, den: 1 }
    }

    /// `(z + 1) * num / den`, rounded down: the first cell of the slice at
    /// depth `z` that the boundary touches from below.
    pub open spec fn floor_at(self, z: int) -> int {
        ((z + 1) * self.num) / (self.den as int)
    }

    /// `(z + 1) * num / den`, rounded up: the last cell of the slice at depth
    /// `z` that the boundary touches from above.
    pub open spec fn ceil_at(self, z: int) -> int {
        ((z + 1) * self.num + self.den - 1) / (self.den as int)
    }

    /// The tangent `k / (z + 1)`.
    pub fn from_cell(k: usize, z: usize) -> (s: Slope)
        requires
            z < usize::MAX,
        ensures
            s == Slope::of_cell(k as int, z as int),
            s.wf(),
    {
        Slope { num: k, den: z + 1 }
    }

    /// `floor_at(z)`, cut off at `limit`.
    pub fn floor_bound(&self, z: usize, limit: usize) -> (b: usize)
        requires
            self.wf(),
        ensures
            b == min_int(self.floor_at(z as int), limit as int),
    {
        let product: u128 = self.scaled(z);
        let q: u128 = product / (self.den as u128);
        if q < limit as u128 {
            q as usize
        } else {
            limit
        }
    }

    /// `ceil_at(z)`, cut off at `limit`.
    pub fn ceil_bound(&self, z: usize, limit: usize) -> (b: usize)
        requires
            self.wf(),
        ensures
            b == min_int(self.ceil_at(z as int), limit as int),
    {
        let product: u128 = self.scaled(z);
        let q: u128 = (product + (self.den as u128 - 1)) / (self.den as u128);
        if q < limit as u128 {
            q as usize
        } else {
            limit
        }
    }

    /// `(z + 1) * num`, which fits twice the width of an index.
    fn scaled(&self, z: usize) -> (p: u128)
        ensures
            p == (z + 1) * self.num,
            p + self.den <= u128::MAX,
    {
        let a: u128 = z as u128 + 1;
        let b: u128 = self.num as u128;
        proof {
            lemma_mul_upper_bound(
                a as int,
                0x1_0000_0000_0000_0000,
                b as int,
                0xffff_ffff_ffff_ffff,
            );
        }
        a * b
    }
}

/// A boundary through the near edge of cell `k` of the slice at depth `z`
/// touches, one slice further out, cells no nearer than `k`.
pub proof fn lemma_floor_next_slice(k: int, z: int)
    requires
        0 <= k,
        0 <= z,
        k <= usize::MAX,
        z < usize::MAX,
    ensures
        Slope::of_cell(k, z).floor_at(z + 1) == k + k / (z + 1),
        Slope::of_cell(k, z).floor_at(z + 1) >= k,
{
    let d = z + 1;
    assert((z + 2) * k == k * d + k) by (nonlinear_arith)
        requires
            d == z + 1,
    ;
    lemma_fundamental_div_mod(k, d);
    lemma_mod_bound(k, d);
    let q = k / d;
    let r = k % d;
    assert(k * d + k == d * (k + q) + r) by (nonlinear_arith)
        requires
            k == d * q + r,
    ;
    lemma_fundamental_div_mod_converse((z + 2) * k, d, k + q, r);
    lemma_div_pos_is_pos(k, d);
}

} // verus!

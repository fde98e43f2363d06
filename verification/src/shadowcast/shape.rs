//! The shape of a light: a sphere, or a cone around a direction.

use vstd::prelude::*;
use vstd::arithmetic::mul::*;
use crate::geometry::point::{GridCoord, Point3};

verus! {

/// The number that stands for a cosine of one: cosines are counted in
/// 16384ths.
pub const COS_ONE: i16 = 16384;

/// The largest distance along one axis between a light and a cell that a cone
/// can be asked about.
pub const MAX_OFFSET: i64 = 0x1_0000_0000;

/// A direction in space: a vector of any length but zero points along it.
#[derive(Clone, Copy, Debug, PartialEq, Eq, Structural)]
pub struct Direction {
    pub x: i16,
    pub y: i16,
    pub z: i16,
}

impl Direction {
    /// The direction as a vector of mathematical integers.
    pub open spec fn vector(self) -> (int, int, int) {
        (self.x as int, self.y as int, self.z as int)
    }
}

/// The largest length of an axis of a grid in which a cone can be cast.
pub const MAX_CONE_GRID: usize = 0x8000_0000;

/// The shape into which a light shines.
#[derive(Clone, Copy, Debug, PartialEq, Eq, Structural)]
pub enum LightShape {
    /// In every direction.
    Sphere,
    /// Within an angle of a direction. `facing` points along the axis of the
    /// cone and may have any length; `width_cos` is the cosine of the half
    /// angle of the cone, in 16384ths.
    Cone { facing: Direction, width_cos: i16 },
}

/// The scalar product of two vectors.
pub open spec fn dot(a: (int, int, int), b: (int, int, int)) -> int {
    a.0 * b.0 + a.1 * b.1 + a.2 * b.2
}

/// The square of the length of a vector.
pub open spec fn norm_sq(a: (int, int, int)) -> int {
    dot(a, a)
}

/// A cosine in 16384ths, brought into the range from minus one to one.
pub open spec fn clamp_cos(c: int) -> int {
    if c > COS_ONE {
        COS_ONE as int
    } else if c < -COS_ONE {
        -COS_ONE
    } else {
        c
    }
}

/// Whether the angle between `facing` and `v` is less than the half angle
/// whose cosine is `width_cos / 16384`; in other words, whether the cosine of
/// the angle between the two is greater than that. The angle to a vector of
/// length zero counts as zero.
pub open spec fn cone_contains(facing: (int, int, int), width_cos: int, v: (int, int, int)) -> bool {
    let c = clamp_cos(width_cos);
    if norm_sq(facing) == 0 || norm_sq(v) == 0 {
        c < COS_ONE
    } else {
        let d = dot(facing, v) * COS_ONE;
        let bound = c * c * (norm_sq(facing) * norm_sq(v));
        if c >= 0 {
            d > 0 && d * d > bound
        } else {
            d >= 0 || d * d < bound
        }
    }
}

/// The vector from `source` to the cell at `pos`.
pub open spec fn offset_of(pos: GridCoord, source: Point3) -> (int, int, int) {
    (pos.x - source.x, pos.y - source.y, pos.z - source.z)
}

impl LightShape {
    /// Whether a point at the offset `v` from the light lies in the shape.
    pub open spec fn spec_contains(self, v: (int, int, int)) -> bool {
        match self {
            LightShape::Sphere => true,
            LightShape::Cone { facing, width_cos } => cone_contains(
                facing.vector(),
                width_cos as int,
                v,
            ),
        }
    }

    /// Whether the shape can be cast in a grid with the given axis lengths:
    /// a sphere in any grid, a cone in a grid whose indices are small enough
    /// for the offsets between its cells and a light to be measured.
    pub open spec fn in_reach(self, width: int, height: int, depth: int) -> bool {
        self is Cone ==> width <= MAX_CONE_GRID && height <= MAX_CONE_GRID && depth
            <= MAX_CONE_GRID
    }

    /// Whether the cell at `pos` lies in the shape of a light at `source`.
    pub fn holds_cell(&self, pos: GridCoord, source: Point3) -> (b: bool)
        requires
            self is Cone ==> pos.x <= MAX_CONE_GRID && pos.y <= MAX_CONE_GRID && pos.z
                <= MAX_CONE_GRID,
        ensures
            b == self.spec_contains(offset_of(pos, source)),
    {
        match self {
            LightShape::Sphere => true,
            LightShape::Cone { .. } => self.contains(
                (
                    pos.x as i64 - source.x as i64,
                    pos.y as i64 - source.y as i64,
                    pos.z as i64 - source.z as i64,
                ),
            ),
        }
    }

    /// Whether a point at the offset `pos` from the light lies in the shape.
    /// For a sphere every point does. For a cone, a point does if and only if
    /// the angle between the cone's axis and `pos` is less than the half
    /// angle.
    pub fn contains(&self, pos: (i64, i64, i64)) -> (b: bool)
        requires
            -MAX_OFFSET <= pos.0 <= MAX_OFFSET,
            -MAX_OFFSET <= pos.1 <= MAX_OFFSET,
            -MAX_OFFSET <= pos.2 <= MAX_OFFSET,
        ensures
            b == self.spec_contains((pos.0 as int, pos.1 as int, pos.2 as int)),
    {
        match self {
            LightShape::Sphere => true,
            LightShape::Cone { facing, width_cos } => {
                let c: i128 = if *width_cos > COS_ONE {
                    COS_ONE as i128
                } else if *width_cos < -COS_ONE {
                    -(COS_ONE as i128)
                } else {
                    *width_cos as i128
                };
                let fx: i128 = facing.x as i128;
                let fy: i128 = facing.y as i128;
                let fz: i128 = facing.z as i128;
                let vx: i128 = pos.0 as i128;
                let vy: i128 = pos.1 as i128;
                let vz: i128 = pos.2 as i128;
                proof {
                    lemma_product_bounds(fx as int, fx as int, 0x8000, 0x8000);
                    lemma_product_bounds(fy as int, fy as int, 0x8000, 0x8000);
                    lemma_product_bounds(fz as int, fz as int, 0x8000, 0x8000);
                    lemma_product_bounds(vx as int, vx as int, 0x1_0000_0000, 0x1_0000_0000);
                    lemma_product_bounds(vy as int, vy as int, 0x1_0000_0000, 0x1_0000_0000);
                    lemma_product_bounds(vz as int, vz as int, 0x1_0000_0000, 0x1_0000_0000);
                    lemma_product_bounds(fx as int, vx as int, 0x8000, 0x1_0000_0000);
                    lemma_product_bounds(fy as int, vy as int, 0x8000, 0x1_0000_0000);
                    lemma_product_bounds(fz as int, vz as int, 0x8000, 0x1_0000_0000);
                    lemma_product_bounds(c as int, c as int, 0x4000, 0x4000);
                }
                let f2: i128 = fx * fx + fy * fy + fz * fz;
                let v2: i128 = vx * vx + vy * vy + vz * vz;
                if f2 == 0 || v2 == 0 {
                    c < COS_ONE as i128
                } else {
                    let fv: i128 = fx * vx + fy * vy + fz * vz;
                    proof {
                        lemma_product_bounds(
                            fv as int,
                            0x4000,
                            3int * 0x8000 * 0x1_0000_0000,
                            0x4000,
                        );
                        lemma_product_bounds(
                            f2 as int,
                            v2 as int,
                            3int * 0x8000 * 0x8000,
                            3int * 0x1_0000_0000 * 0x1_0000_0000,
                        );
                    }
                    let d: i128 = fv * (COS_ONE as i128);
                    let fv2: i128 = f2 * v2;
                    let cc: i128 = c * c;
                    proof {
                        lemma_product_bounds(
                            d as int,
                            d as int,
                            3int * 0x8000 * 0x1_0000_0000 * 0x4000,
                            3int * 0x8000 * 0x1_0000_0000 * 0x4000,
                        );
                        lemma_product_bounds(
                            cc as int,
                            fv2 as int,
                            0x4000int * 0x4000,
                            9int * 0x8000 * 0x8000 * 0x1_0000_0000 * 0x1_0000_0000,
                        );
                    }
                    let bound: i128 = cc * fv2;
                    assert(-6917529027641081856 <= d <= 6917529027641081856);
                    assert(d * d <= 47852207848256971424537054170092404736) by {
                        lemma_product_bounds(d as int, d as int, 6917529027641081856, 6917529027641081856);
                    }
                    if c >= 0 {
                        d > 0 && d * d > bound
                    } else {
                        d >= 0 || d * d < bound
                    }
                }
            },
        }
    }
}

/// A product of two numbers is bounded by the product of bounds on their
/// magnitudes.
pub proof fn lemma_product_bounds(a: int, b: int, ma: int, mb: int)
    requires
        -ma <= a <= ma,
        -mb <= b <= mb,
    ensures
        -(ma * mb) <= a * b <= ma * mb,
{
    assert(-(ma * mb) <= a * b <= ma * mb) by (nonlinear_arith)
        requires
            -ma <= a <= ma,
            -mb <= b <= mb,
    {
        assert((ma - a) * (mb - b) >= 0);
        assert((ma + a) * (mb + b) >= 0);
        assert((ma - a) * (mb + b) >= 0);
        assert((ma + a) * (mb - b) >= 0);
    }
}

/// `(x * x) * (y * y)` is the square of `x * y`.
proof fn lemma_square_of_product(x: int, y: int)
    ensures
        (x * x) * (y * y) == (x * y) * (x * y),
{
    assert((x * x) * (y * y) == (x * y) * (x * y)) by (nonlinear_arith);
}

/// In a product of two products the right factors may be exchanged.
proof fn lemma_exchange(x: int, y: int, u: int, v: int)
    ensures
        (x * y) * (u * v) == (x * v) * (u * y),
{
    assert((x * y) * (u * v) == (x * v) * (u * y)) by (nonlinear_arith);
}

/// The square of a scalar product never exceeds the product of the squared
/// lengths.
pub proof fn lemma_cauchy_schwarz(a: (int, int, int), b: (int, int, int))
    ensures
        dot(a, b) * dot(a, b) <= norm_sq(a) * norm_sq(b),
{
    let (a0, a1, a2) = a;
    let (b0, b1, b2) = b;
    let p00 = a0 * b0;
    let p01 = a0 * b1;
    let p02 = a0 * b2;
    let p10 = a1 * b0;
    let p11 = a1 * b1;
    let p12 = a1 * b2;
    let p20 = a2 * b0;
    let p21 = a2 * b1;
    let p22 = a2 * b2;
    let (s0, s1, s2) = (a0 * a0, a1 * a1, a2 * a2);
    let (t0, t1, t2) = (b0 * b0, b1 * b1, b2 * b2);
    assert((s0 + s1 + s2) * (t0 + t1 + t2) == s0 * t0 + s0 * t1 + s0 * t2 + s1 * t0 + s1 * t1 + s1
        * t2 + s2 * t0 + s2 * t1 + s2 * t2) by (nonlinear_arith);
    lemma_square_of_product(a0, b0);
    lemma_square_of_product(a0, b1);
    lemma_square_of_product(a0, b2);
    lemma_square_of_product(a1, b0);
    lemma_square_of_product(a1, b1);
    lemma_square_of_product(a1, b2);
    lemma_square_of_product(a2, b0);
    lemma_square_of_product(a2, b1);
    lemma_square_of_product(a2, b2);
    assert((p00 + p11 + p22) * (p00 + p11 + p22) == p00 * p00 + p11 * p11 + p22 * p22 + 2 * (p00
        * p11) + 2 * (p00 * p22) + 2 * (p11 * p22)) by (nonlinear_arith);
    lemma_exchange(a0, b0, a1, b1);
    lemma_exchange(a0, b0, a2, b2);
    lemma_exchange(a1, b1, a2, b2);
    assert(p00 * p11 == p01 * p10);
    assert(p00 * p22 == p02 * p20);
    assert(p11 * p22 == p12 * p21);
    let c0 = p01 - p10;
    let c1 = p02 - p20;
    let c2 = p12 - p21;
    assert(c0 * c0 == p01 * p01 + p10 * p10 - 2 * (p01 * p10)) by (nonlinear_arith)
        requires
            c0 == p01 - p10,
    ;
    assert(c1 * c1 == p02 * p02 + p20 * p20 - 2 * (p02 * p20)) by (nonlinear_arith)
        requires
            c1 == p02 - p20,
    ;
    assert(c2 * c2 == p12 * p12 + p21 * p21 - 2 * (p12 * p21)) by (nonlinear_arith)
        requires
            c2 == p12 - p21,
    ;
    assert(c0 * c0 >= 0 && c1 * c1 >= 0 && c2 * c2 >= 0) by (nonlinear_arith);
    assert(norm_sq(a) * norm_sq(b) - dot(a, b) * dot(a, b) == c0 * c0 + c1 * c1 + c2 * c2);
}

/// A cone whose half angle is zero holds no point at all: no angle is less
/// than zero.
pub proof fn lemma_closed_cone_is_empty(facing: Direction, width_cos: i16, v: (int, int, int))
    requires
        width_cos >= COS_ONE,
    ensures
        !(LightShape::Cone { facing, width_cos }).spec_contains(v),
{
    let f = facing.vector();
    lemma_cauchy_schwarz(f, v);
    let one = COS_ONE as int;
    let fv = dot(f, v);
    let n = norm_sq(f) * norm_sq(v);
    assert((fv * one) * (fv * one) == one * one * (fv * fv)) by (nonlinear_arith);
    assert(one * one * (fv * fv) <= one * one * n) by (nonlinear_arith)
        requires
            fv * fv <= n,
            one == 16384,
    ;
}

/// A sphere holds every point.
pub proof fn lemma_sphere_contains_all(v: (int, int, int))
    ensures
        LightShape::Sphere.spec_contains(v),
{
}

} // verus!

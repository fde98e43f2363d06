//! Axis-aligned rectangles of tiles.

use std::ops::Range;
use vstd::prelude::*;
use crate::geometry::point::{Point2, Vector2};
use crate::ui::{LayoutDirection, Size};

verus! {

/// A rectangle of tiles: its top-left corner and its extent.
#[derive(Copy, Clone, PartialEq, Eq, Debug, Structural)]
pub struct IRect {
    pub x: u32,
    pub y: u32,
    pub w: u32,
    pub h: u32,
}

impl Default for IRect {
    fn default() -> (r: Self)
        ensures
            r == (IRect { x: 0, y: 0, w: 0, h: 0 }),
    {
        IRect { x: 0, y: 0, w: 0, h: 0 }
    }
}

impl IRect {
    /// The right edge as a mathematical integer.
    pub open spec fn spec_right(self) -> int {
        self.x + self.w
    }

    /// The bottom edge as a mathematical integer.
    pub open spec fn spec_bottom(self) -> int {
        self.y + self.h
    }

    /// Both far edges are representable coordinates.
    pub open spec fn fits(self) -> bool {
        self.spec_right() <= u32::MAX && self.spec_bottom() <= u32::MAX
    }

    /// Whether the point lies inside the rectangle; the far edges are excluded.
    pub open spec fn spec_contains(self, p: Point2) -> bool {
        self.x <= p.x < self.spec_right() && self.y <= p.y < self.spec_bottom()
    }

    /// Whether the two rectangles share a tile.
    pub open spec fn spec_overlaps(self, other: Self) -> bool {
        &&& self.x < other.spec_right()
        &&& self.spec_right() > other.x
        &&& self.y < other.spec_bottom()
        &&& self.spec_bottom() > other.y
    }

    /// Where the rectangle starts along a direction.
    pub open spec fn spec_dir_start(self, direction: LayoutDirection) -> int {
        match direction {
            LayoutDirection::Horizontal => self.x as int,
            LayoutDirection::Vertical => self.y as int,
        }
    }

    /// Where the rectangle ends along a direction.
    pub open spec fn spec_dir_end(self, direction: LayoutDirection) -> int {
        match direction {
            LayoutDirection::Horizontal => self.spec_right(),
            LayoutDirection::Vertical => self.spec_bottom(),
        }
    }

    /// The number of tiles the rectangle covers.
    pub open spec fn area(self) -> int {
        self.w * self.h
    }

    /// The `i`-th tile of the rectangle in row-major order.
    pub open spec fn spec_point_at(self, i: int) -> Point2
        recommends
            0 <= i < self.area(),
    {
        Point2 { x: (self.x + i % (self.w as int)) as u32, y: (self.y + i / (self.w as int)) as u32 }
    }

    /// Create a new rectangle.
    pub fn new(x: u32, y: u32, w: u32, h: u32) -> (r: Self)
        ensures
            r == (IRect { x, y, w, h }),
    {
        Self { x, y, w, h }
    }

    /// Create a new rectangle with all values zero.
    pub fn zero() -> (r: Self)
        ensures
            r == (IRect { x: 0, y: 0, w: 0, h: 0 }),
    {
        Self::new(0, 0, 0, 0)
    }

    /// Creates a new rectangle at `0,0` with width and height 1.
    pub fn one() -> (r: Self)
        ensures
            r == (IRect { x: 0, y: 0, w: 1, h: 1 }),
    {
        Self::new(0, 0, 1, 1)
    }

    /// Gets the rectangle's x and y coordinates as a point.
    pub fn point(&self) -> (p: Point2)
        ensures
            p == (Point2 { x: self.x, y: self.y }),
    {
        Point2 { x: self.x, y: self.y }
    }

    /// Returns the left edge of the rectangle.
    pub fn left(&self) -> (v: u32)
        ensures
            v == self.x,
    {
        self.x
    }

    /// Returns the right edge of the rectangle.
    pub fn right(&self) -> (v: u32)
        requires
            self.spec_right() <= u32::MAX,
        ensures
            v == self.spec_right(),
    {
        self.x + self.w
    }

    /// Returns the top edge of the rectangle.
    pub fn top(&self) -> (v: u32)
        ensures
            v == self.y,
    {
        self.y
    }

    /// Returns the bottom edge of the rectangle.
    pub fn bottom(&self) -> (v: u32)
        requires
            self.spec_bottom() <= u32::MAX,
        ensures
            v == self.spec_bottom(),
    {
        self.y + self.h
    }

    /// Checks whether the rectangle contains a point.
    pub fn contains(&self, point: Point2) -> (b: bool)
        ensures
            b == self.spec_contains(point),
    {
        point.x >= self.x && (point.x as u64) < self.x as u64 + self.w as u64 && (point.y as u64)
            < self.y as u64 + self.h as u64 && point.y >= self.y
    }

    /// Checks whether the rectangle overlaps another rectangle.
    pub fn overlaps(&self, other: &Self) -> (b: bool)
        ensures
            b == self.spec_overlaps(*other),
    {
        (self.x as u64) < other.x as u64 + other.w as u64 && self.x as u64 + self.w as u64
            > other.x as u64 && (self.y as u64) < other.y as u64 + other.h as u64 && self.y as u64
            + self.h as u64 > other.y as u64
    }

    /// Translates the rectangle by an offset of (x, y).
    pub fn translate(&mut self, offset: Vector2)
        requires
            old(self).x + offset.x <= u32::MAX,
            old(self).y + offset.y <= u32::MAX,
        ensures
            final(self).x == old(self).x + offset.x,
            final(self).y == old(self).y + offset.y,
            final(self).w == old(self).w,
            final(self).h == old(self).h,
    {
        self.x += offset.x;
        self.y += offset.y;
    }

    /// Moves the rectangle's origin to (x, y).
    pub fn move_to(&mut self, destination: Point2)
        ensures
            *final(self) == (IRect { x: destination.x, y: destination.y, ..*old(self) }),
    {
        self.x = destination.x;
        self.y = destination.y;
    }

    /// Returns the smallest rectangle that includes all points of these two
    /// rectangles.
    pub fn combine_with(self, other: Self) -> (r: Self)
        requires
            self.fits(),
            other.fits(),
        ensures
            r.x == if self.x <= other.x { self.x } else { other.x },
            r.y == if self.y <= other.y { self.y } else { other.y },
            r.spec_right() == if self.spec_right() >= other.spec_right() {
                self.spec_right()
            } else {
                other.spec_right()
            },
            r.spec_bottom() == if self.spec_bottom() >= other.spec_bottom() {
                self.spec_bottom()
            } else {
                other.spec_bottom()
            },
    {
        let x = if self.x <= other.x { self.x } else { other.x };
        let y = if self.y <= other.y { self.y } else { other.y };
        let right = if self.right() >= other.right() { self.right() } else { other.right() };
        let bottom = if self.bottom() >= other.bottom() { self.bottom() } else { other.bottom() };
        let w = right - x;
        let h = bottom - y;
        Self { x, y, w, h }
    }

    /// The extent of the rectangle.
    pub fn size(self) -> (s: Size)
        ensures
            s == (Size { width: self.w, height: self.h }),
    {
        Size::new(self.w, self.h)
    }

    /// The part of the rectangle that `range` cuts out along `direction`,
    /// counted from the rectangle's start in that direction.
    pub fn slice_dir(self, direction: LayoutDirection, range: Range<u32>) -> (r: Self)
        requires
            range.start <= range.end,
            self.spec_dir_start(direction) + range.start <= u32::MAX,
        ensures
            r == match direction {
                LayoutDirection::Horizontal => IRect {
                    x: (self.x + range.start) as u32,
                    w: (range.end - range.start) as u32,
                    ..self
                },
                LayoutDirection::Vertical => IRect {
                    y: (self.y + range.start) as u32,
                    h: (range.end - range.start) as u32,
                    ..self
                },
            },
    {
        let mut r = self;
        match direction {
            LayoutDirection::Horizontal => {
                r.x += range.start;
                r.w = range.end - range.start;
            },
            LayoutDirection::Vertical => {
                r.y += range.start;
                r.h = range.end - range.start;
            },
        }
        r
    }

    /// Where the rectangle starts along `direction`.
    pub fn dir_start(self, direction: LayoutDirection) -> (v: u32)
        ensures
            v == self.spec_dir_start(direction),
    {
        match direction {
            LayoutDirection::Horizontal => self.x,
            LayoutDirection::Vertical => self.y,
        }
    }

    /// Where the rectangle ends along `direction`.
    pub fn dir_end(self, direction: LayoutDirection) -> (v: u32)
        requires
            self.spec_dir_end(direction) <= u32::MAX,
        ensures
            v == self.spec_dir_end(direction),
    {
        match direction {
            LayoutDirection::Horizontal => self.x + self.w,
            LayoutDirection::Vertical => self.y + self.h,
        }
    }

    /// The span of the rectangle along `direction`.
    pub fn dir(self, direction: LayoutDirection) -> (r: Range<u32>)
        requires
            self.spec_dir_end(direction) <= u32::MAX,
        ensures
            r.start == self.spec_dir_start(direction),
            r.end == self.spec_dir_end(direction),
    {
        self.dir_start(direction)..self.dir_end(direction)
    }

    /// A cursor over the tiles of the rectangle, row by row.
    pub fn points(self) -> (p: Points)
        requires
            self.fits(),
            self.area() <= u32::MAX,
        ensures
            p.rect() == self,
            p.index() == 0,
    {
        Points { rect: self, i: 0 }
    }
}

/// A cursor over the tiles of a rectangle in row-major order.
pub struct Points {
    rect: IRect,
    i: usize,
}

impl Points {
    #[verifier::type_invariant]
    spec fn inv(self) -> bool {
        &&& self.rect.fits()
        &&& self.rect.area() <= u32::MAX
        &&& self.i <= self.rect.area()
    }

    /// The rectangle that is walked.
    pub closed spec fn rect(self) -> IRect {
        self.rect
    }

    /// How many tiles have been handed out.
    pub closed spec fn index(self) -> nat {
        self.i as nat
    }

    /// The tiles still to come.
    pub open spec fn remaining(self) -> Seq<Point2> {
        Seq::new(
            (self.rect().area() - self.index()) as nat,
            |k: int| self.rect().spec_point_at(self.index() + k),
        )
    }

    /// Hands out the next tile, or `None` when every tile has been handed out.
    pub fn next(&mut self) -> (r: Option<Point2>)
        ensures
            final(self).rect() == old(self).rect(),
            old(self).index() == old(self).rect().area() ==> r.is_none() && final(self).index()
                == old(self).index(),
            old(self).index() != old(self).rect().area() ==> r == Some(
                old(self).rect().spec_point_at(old(self).index() as int),
            ) && final(self).index() == old(self).index() + 1,
            r is Some ==> old(self).rect().spec_contains(r.unwrap()),
    {
        proof {
            use_type_invariant(&*self);
        }
        let w = self.rect.w;
        let h = self.rect.h;
        assert(w * h == self.rect.area());
        if (w * h) as usize == self.i {
            None
        } else {
            assert(w > 0) by (nonlinear_arith)
                requires
                    self.i < w * h,
            ;
            let i = self.i as u32;
            proof {
                lemma_cell_in_rect(w as int, h as int, i as int);
            }
            let pos = Point2 { x: self.rect.x + i % w, y: self.rect.y + i / w };
            self.i += 1;
            Some(pos)
        }
    }

    /// The number of tiles still to come, as a lower and an upper bound.
    pub fn size_hint(&self) -> (r: (usize, Option<usize>))
        ensures
            r.0 == self.rect().area() - self.index(),
            r.1 == Some(r.0),
    {
        proof {
            use_type_invariant(self);
        }
        let w = self.rect.w;
        let h = self.rect.h;
        assert(w * h == self.rect.area());
        let n = (w * h) as usize - self.i;
        (n, Some(n))
    }

    /// All the tiles still to come, in order.
    pub fn collect(self) -> (v: Vec<Point2>)
        ensures
            v@ == self.remaining(),
    {
        let mut cursor = self;
        let mut v: Vec<Point2> = Vec::new();
        let ghost start = self;
        proof {
            use_type_invariant(&cursor);
        }
        loop
            invariant
                cursor.rect() == start.rect(),
                start.index() <= cursor.index() <= start.rect().area(),
                v@.len() == cursor.index() - start.index(),
                forall|k: int|
                    0 <= k < v@.len() ==> v@[k] == start.rect().spec_point_at(start.index() + k),
            ensures
                cursor.index() == start.rect().area(),
            decreases start.rect().area() - cursor.index(),
        {
            let ghost before = cursor;
            match cursor.next() {
                Some(p) => {
                    v.push(p);
                },
                None => {
                    break ;
                },
            }
        }
        assert(v@ =~= self.remaining());
        v
    }
}

/// The row-major index `i` of a `w` by `h` block splits into a column below
/// `w` and a row below `h`.
proof fn lemma_cell_in_rect(w: int, h: int, i: int)
    requires
        0 < w,
        0 <= h,
        0 <= i < w * h,
    ensures
        0 <= i % w < w,
        0 <= i / w < h,
{
    vstd::arithmetic::div_mod::lemma_fundamental_div_mod(i, w);
    vstd::arithmetic::div_mod::lemma_mod_bound(i, w);
    assert(i / w < h) by (nonlinear_arith)
        requires
            0 < w,
            0 <= i < w * h,
            i == w * (i / w) + i % w,
            0 <= i % w < w,
    ;
    assert(0 <= i / w) by (nonlinear_arith)
        requires
            0 < w,
            0 <= i,
            i == w * (i / w) + i % w,
            0 <= i % w < w,
    ;
}

} // verus!

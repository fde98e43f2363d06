//! Layout arithmetic of the tile-based user interface.

use std::marker::PhantomData;
use std::ops::Range;
use vstd::prelude::*;
use vstd::arithmetic::div_mod::{lemma_fundamental_div_mod, lemma_fundamental_div_mod_converse, lemma_mod_bound};
use crate::geometry::point::Point2;
use crate::geometry::rect::IRect;
use crate::rendering::color::Color;
use crate::rendering::font::{Glyph, KataFontBatch};
use crate::rendering::voxel::Voxel2;

verus! {

/// The two directions in which elements are laid out.
#[derive(Debug, Clone, Copy, PartialEq, Eq, Structural)]
pub enum LayoutDirection {
    Horizontal,
    Vertical,
}

impl LayoutDirection {
    /// The direction across this one.
    pub open spec fn spec_other(self) -> Self {
        match self {
            LayoutDirection::Horizontal => LayoutDirection::Vertical,
            LayoutDirection::Vertical => LayoutDirection::Horizontal,
        }
    }

    /// The direction across this one.
    pub fn other(self) -> (d: Self)
        ensures
            d == self.spec_other(),
    {
        match self {
            LayoutDirection::Horizontal => LayoutDirection::Vertical,
            LayoutDirection::Vertical => LayoutDirection::Horizontal,
        }
    }
}

/// An extent in tiles.
#[derive(Clone, Copy, Debug, PartialEq, Eq, Structural)]
pub struct Size {
    pub width: u32,
    pub height: u32,
}

/// The smaller of two numbers.
pub open spec fn spec_min(a: int, b: int) -> int {
    if a <= b {
        a
    } else {
        b
    }
}

/// The larger of two numbers.
pub open spec fn spec_max(a: int, b: int) -> int {
    if a >= b {
        a
    } else {
        b
    }
}

/// `a - b`, or zero where `b` is larger.
pub open spec fn spec_saturating_sub(a: int, b: int) -> int {
    if a >= b {
        a - b
    } else {
        0
    }
}

fn min_u32(a: u32, b: u32) -> (m: u32)
    ensures
        m == spec_min(a as int, b as int),
{
    if a <= b {
        a
    } else {
        b
    }
}

fn max_u32(a: u32, b: u32) -> (m: u32)
    ensures
        m == spec_max(a as int, b as int),
{
    if a >= b {
        a
    } else {
        b
    }
}

fn saturating_sub_u32(a: u32, b: u32) -> (m: u32)
    ensures
        m == spec_saturating_sub(a as int, b as int),
{
    if a >= b {
        a - b
    } else {
        0
    }
}

impl Size {
    /// The extent along a direction.
    pub open spec fn spec_dir(self, direction: LayoutDirection) -> u32 {
        match direction {
            LayoutDirection::Horizontal => self.width,
            LayoutDirection::Vertical => self.height,
        }
    }

    /// This size with the extent along a direction replaced.
    pub open spec fn spec_with_dir(self, direction: LayoutDirection, new_size: u32) -> Self {
        match direction {
            LayoutDirection::Horizontal => Size { width: new_size, height: self.height },
            LayoutDirection::Vertical => Size { width: self.width, height: new_size },
        }
    }

    /// Each extent reduced by the matching extent of `size`, stopping at zero.
    pub open spec fn spec_shrink(self, size: Size) -> Self {
        Size {
            width: spec_saturating_sub(self.width as int, size.width as int) as u32,
            height: spec_saturating_sub(self.height as int, size.height as int) as u32,
        }
    }

    /// The smaller extent of the two in each direction.
    pub open spec fn spec_min(self, rhs: Self) -> Self {
        Size {
            width: spec_min(self.width as int, rhs.width as int) as u32,
            height: spec_min(self.height as int, rhs.height as int) as u32,
        }
    }

    /// The larger extent of the two in each direction.
    pub open spec fn spec_max(self, rhs: Self) -> Self {
        Size {
            width: spec_max(self.width as int, rhs.width as int) as u32,
            height: spec_max(self.height as int, rhs.height as int) as u32,
        }
    }

    pub fn new(width: u32, height: u32) -> (s: Self)
        ensures
            s == (Size { width, height }),
    {
        Self { width, height }
    }

    /// The empty size.
    pub fn zero() -> (s: Self)
        ensures
            s == (Size { width: 0, height: 0 }),
    {
        Self { width: 0, height: 0 }
    }

    /// Each extent reduced by the matching extent of `size`, stopping at zero.
    pub fn shrink(&self, size: Size) -> (s: Self)
        ensures
            s == self.spec_shrink(size),
    {
        Self {
            width: saturating_sub_u32(self.width, size.width),
            height: saturating_sub_u32(self.height, size.height),
        }
    }

    /// The extent along `direction`.
    pub fn dir(&self, direction: LayoutDirection) -> (v: &u32)
        ensures
            *v == self.spec_dir(direction),
    {
        match direction {
            LayoutDirection::Horizontal => &self.width,
            LayoutDirection::Vertical => &self.height,
        }
    }

    /// The extent along `direction`, to be written through.
    pub fn dir_mut(&mut self, direction: LayoutDirection) -> (v: &mut u32)
        ensures
            *v == old(self).spec_dir(direction),
            *final(self) == old(self).spec_with_dir(direction, *final(v)),
    {
        match direction {
            LayoutDirection::Horizontal => &mut self.width,
            LayoutDirection::Vertical => &mut self.height,
        }
    }

    /// This size with the extent along `direction` replaced by `new_size`.
    pub fn with_dir(self, direction: LayoutDirection, new_size: u32) -> (s: Self)
        ensures
            s == self.spec_with_dir(direction, new_size),
    {
        let mut it = self;
        match direction {
            LayoutDirection::Horizontal => {
                it.width = new_size;
            },
            LayoutDirection::Vertical => {
                it.height = new_size;
            },
        }
        it
    }

    /// The smaller extent of the two in each direction.
    pub fn min(self, rhs: Self) -> (s: Self)
        ensures
            s == self.spec_min(rhs),
    {
        Self { width: min_u32(self.width, rhs.width), height: min_u32(self.height, rhs.height) }
    }

    /// The larger extent of the two in each direction.
    pub fn max(self, rhs: Self) -> (s: Self)
        ensures
            s == self.spec_max(rhs),
    {
        Self { width: max_u32(self.width, rhs.width), height: max_u32(self.height, rhs.height) }
    }
}

impl Default for Size {
    fn default() -> (s: Self)
        ensures
            s == (Size { width: 0, height: 0 }),
    {
        Size { width: 0, height: 0 }
    }
}

/// Reading a point's coordinate along a layout direction.
pub trait PointExt {
    /// The coordinate along a direction.
    spec fn spec_dir(&self, direction: LayoutDirection) -> u32;

    /// The coordinate along `direction`.
    fn dir(&self, direction: LayoutDirection) -> (v: &u32)
        ensures
            *v == self.spec_dir(direction),
    ;
}

impl PointExt for Point2 {
    open spec fn spec_dir(&self, direction: LayoutDirection) -> u32 {
        match direction {
            LayoutDirection::Horizontal => self.x,
            LayoutDirection::Vertical => self.y,
        }
    }

    fn dir(&self, direction: LayoutDirection) -> (v: &u32) {
        match direction {
            LayoutDirection::Horizontal => &self.x,
            LayoutDirection::Vertical => &self.y,
        }
    }
}

/// The least and the greatest size an element may take.
#[derive(Clone, Copy, Debug, PartialEq, Eq, Structural)]
pub struct BoxConstraints {
    pub min: Size,
    pub max: Size,
}

impl BoxConstraints {
    /// The least size does not exceed the greatest one.
    pub open spec fn wf(self) -> bool {
        self.min.width <= self.max.width && self.min.height <= self.max.height
    }

    /// The size clamped into the constraints: cut to the greatest size first,
    /// raised to the least size after.
    pub open spec fn spec_constrain(self, size: Size) -> Size {
        size.spec_min(self.max).spec_max(self.min)
    }

    pub fn new(min: Size, max: Size) -> (c: Self)
        requires
            min.width <= max.width,
            min.height <= max.height,
        ensures
            c == (BoxConstraints { min, max }),
            c.wf(),
    {
        Self { min, max }
    }

    /// Constraints that admit exactly one size.
    pub fn exact(size: Size) -> (c: Self)
        ensures
            c == (BoxConstraints { min: size, max: size }),
            c.wf(),
    {
        Self::new(size, size)
    }

    /// Both bounds reduced by `size`, stopping at zero.
    pub fn shrink(&self, size: Size) -> (c: Self)
        ensures
            c == (BoxConstraints { min: self.min.spec_shrink(size), max: self.max.spec_shrink(size) }),
            self.wf() ==> c.wf(),
    {
        Self { min: self.min.shrink(size), max: self.max.shrink(size) }
    }

    /// The same widths, with the height fixed at the largest number.
    pub fn with_inf_height(&self) -> (c: Self)
        ensures
            c == (BoxConstraints {
                min: Size { width: self.min.width, height: u32::MAX },
                max: Size { width: self.max.width, height: u32::MAX },
            }),
            self.wf() ==> c.wf(),
    {
        Self {
            min: Size::new(self.min.width, u32::MAX),
            max: Size::new(self.max.width, u32::MAX),
        }
    }

    /// The size clamped into the constraints.
    pub fn constrain(&self, size: Size) -> (s: Size)
        ensures
            s == self.spec_constrain(size),
            self.wf() ==> self.min.width <= s.width <= self.max.width && self.min.height
                <= s.height <= self.max.height,
    {
        size.min(self.max).max(self.min)
    }
}

/// An event was not used up and goes on to the next element.
pub struct Continue;

/// An event was used up.
pub struct Stop;

/// The share of element `i` when `total` is dealt out evenly among `n`
/// elements, the first `total % n` of them getting one more.
pub open spec fn spec_spread(i: int, total: int, n: int) -> int {
    total / n + if i < total % n {
        1int
    } else {
        0int
    }
}

/// The sum of the shares of the first `k` elements.
pub open spec fn spread_sum(k: int, total: int, n: int) -> int
    decreases k,
{
    if k <= 0 {
        0
    } else {
        spread_sum(k - 1, total, n) + spec_spread(k - 1, total, n)
    }
}

/// The share of element `i` when `total` is dealt out evenly among `n`
/// elements.
pub fn spread(i: u32, total: u32, n: u32) -> (s: u32)
    requires
        n > 0,
    ensures
        s == spec_spread(i as int, total as int, n as int),
{
    let extra: u32 = if i < total % n {
        1
    } else {
        0
    };
    proof {
        vstd::arithmetic::div_mod::lemma_fundamental_div_mod(total as int, n as int);
    }
    assert(total / n + extra <= u32::MAX) by (nonlinear_arith)
        requires
            n > 0,
            total <= u32::MAX,
            extra <= 1,
            extra == 1 ==> total % n > 0,
            total == n * (total / n) + total % n,
    ;
    total / n + extra
}

/// The share of the flex units `start..end` when `total` is dealt out among
/// `total_flex` units, the first `total % total_flex` units getting one more.
pub open spec fn spec_spread_flex(start: int, end: int, total: int, total_flex: int) -> int {
    let flex = end - start;
    let threshold = total % total_flex;
    (total / total_flex) * flex + if start < threshold {
        spec_min(threshold - start, flex)
    } else {
        0
    }
}

/// The share of the flex units `flex_range` when `total` is dealt out among
/// `total_flex` units.
pub fn spread_flex(flex_range: Range<u32>, total: u32, total_flex: u32) -> (s: u32)
    requires
        total_flex > 0,
        flex_range.start <= flex_range.end <= total_flex,
    ensures
        s == spec_spread_flex(
            flex_range.start as int,
            flex_range.end as int,
            total as int,
            total_flex as int,
        ),
{
    let flex = flex_range.end - flex_range.start;
    let threshold = total % total_flex;
    let extra = if flex_range.start < threshold {
        min_u32(threshold - flex_range.start, flex)
    } else {
        0
    };
    proof {
        lemma_flex_share_fits(
            flex_range.start as int,
            flex_range.end as int,
            total as int,
            total_flex as int,
        );
    }
    (total / total_flex * flex) + extra
}

/// A share of flex units never exceeds the total that is dealt out.
pub proof fn lemma_flex_share_fits(start: int, end: int, total: int, total_flex: int)
    requires
        total_flex > 0,
        0 <= start <= end <= total_flex,
        0 <= total,
    ensures
        0 <= (total / total_flex) * (end - start) <= total,
        0 <= spec_spread_flex(start, end, total, total_flex) <= total,
{
    let q = total / total_flex;
    let r = total % total_flex;
    let flex = end - start;
    vstd::arithmetic::div_mod::lemma_fundamental_div_mod(total, total_flex);
    vstd::arithmetic::div_mod::lemma_mod_bound(total, total_flex);
    assert(q >= 0) by (nonlinear_arith)
        requires
            total_flex > 0,
            total >= 0,
            total == total_flex * q + r,
            0 <= r < total_flex,
    ;
    assert(0 <= q * flex) by (nonlinear_arith)
        requires
            q >= 0,
            flex >= 0,
    ;
    let extra = if start < r {
        spec_min(r - start, flex)
    } else {
        0
    };
    assert(q * flex <= total_flex * q) by (nonlinear_arith)
        requires
            q >= 0,
            0 <= flex <= total_flex,
    ;
}

/// The shares of all `n` elements add up to the total that is dealt out.
pub proof fn lemma_spread_sums_to_total(total: int, n: int)
    requires
        0 <= total,
        0 < n,
    ensures
        spread_sum(n, total, n) == total,
{
    lemma_spread_partial_sum(n, total, n);
    vstd::arithmetic::div_mod::lemma_fundamental_div_mod(total, n);
    vstd::arithmetic::div_mod::lemma_mod_bound(total, n);
}

/// The shares of the first `k` elements add up to `k` even parts and one
/// more for each of them that stands among the first `total % n`.
proof fn lemma_spread_partial_sum(k: int, total: int, n: int)
    requires
        0 <= k,
        0 < n,
    ensures
        spread_sum(k, total, n) == k * (total / n) + spec_min(k, total % n),
    decreases k,
{
    vstd::arithmetic::div_mod::lemma_mod_bound(total, n);
    if k > 0 {
        lemma_spread_partial_sum(k - 1, total, n);
        assert(k * (total / n) == (k - 1) * (total / n) + total / n) by (nonlinear_arith);
    } else {
        assert(0 * (total / n) == 0) by (nonlinear_arith);
    }
}

/// The shares of two stretches of flex units that follow one another add up
/// to the share of the two together.
pub proof fn lemma_spread_flex_adds(start: int, middle: int, end: int, total: int, total_flex: int)
    requires
        0 <= start <= middle <= end,
        0 < total_flex,
    ensures
        spec_spread_flex(start, middle, total, total_flex) + spec_spread_flex(
            middle,
            end,
            total,
            total_flex,
        ) == spec_spread_flex(start, end, total, total_flex),
{
    let q = total / total_flex;
    assert(q * (middle - start) + q * (end - middle) == q * (end - start)) by (nonlinear_arith);
}

/// The share of all the flex units is the whole total.
pub proof fn lemma_spread_flex_whole(total: int, total_flex: int)
    requires
        0 <= total,
        0 < total_flex,
    ensures
        spec_spread_flex(0, total_flex, total, total_flex) == total,
{
    vstd::arithmetic::div_mod::lemma_fundamental_div_mod(total, total_flex);
    vstd::arithmetic::div_mod::lemma_mod_bound(total, total_flex);
    assert((total / total_flex) * total_flex == total_flex * (total / total_flex))
        by (nonlinear_arith);
}

/// `a + b`, or the largest number where the sum is larger.
pub open spec fn spec_saturating_add(a: int, b: int) -> u32 {
    if a + b > u32::MAX {
        u32::MAX
    } else {
        (a + b) as u32
    }
}

fn saturating_add_u32(a: u32, b: u32) -> (m: u32)
    ensures
        m == spec_saturating_add(a as int, b as int),
{
    if a > u32::MAX - b {
        u32::MAX
    } else {
        a + b
    }
}

/// A button of the mouse.
#[derive(Clone, Copy, Debug, PartialEq, Eq, Structural)]
pub enum MouseButton {
    Left,
    Right,
    Middle,
    Other(u16),
}

/// What the mouse did.
#[derive(Clone, Copy, Debug, PartialEq, Eq, Structural)]
pub enum MouseEvent {
    ButtonDown { button: MouseButton },
    ButtonUp { button: MouseButton },
    ButtonDrag { button: MouseButton, start_pos: Point2 },
    WheelUp,
    WheelDown,
}

/// What an element is told: that the mouse did something at a place, or
/// that it is to draw itself.
#[derive(Clone, Copy, Debug, PartialEq, Eq, Structural)]
pub enum Event {
    Mouse { pos: Point2, e: MouseEvent },
    Draw,
}

impl Event {
    /// Whether the event concerns an element with the given bounds: a drag
    /// if it began inside them, any other mouse event if it happens inside
    /// them, a request to draw always.
    pub open spec fn concerns(self, bounds: IRect) -> bool {
        match self {
            Event::Mouse { pos, e } => match e {
                MouseEvent::ButtonDrag { start_pos, .. } => bounds.spec_contains(start_pos),
                _ => bounds.spec_contains(pos),
            },
            Event::Draw => true,
        }
    }

    /// Whether the event is a turn of the wheel.
    pub open spec fn is_wheel(self) -> bool {
        self matches Event::Mouse { e, .. } && (e == MouseEvent::WheelUp || e
            == MouseEvent::WheelDown)
    }

    /// The event, if it concerns an element with the given bounds.
    pub fn cull(self, bounds: IRect) -> (r: Option<Self>)
        ensures
            r == if self.concerns(bounds) {
                Some(self)
            } else {
                None
            },
    {
        let keep = match self {
            Event::Mouse { pos, e } => match e {
                MouseEvent::ButtonDrag { start_pos, .. } => bounds.contains(start_pos),
                _ => bounds.contains(pos),
            },
            Event::Draw => true,
        };
        if keep {
            Some(self)
        } else {
            None
        }
    }
}

/// What elements share while they handle an event: whether the layout has
/// to be made anew, and the glyphs drawn so far.
pub struct UiContext {
    pub relayout: bool,
    pub batch: KataFontBatch,
}

impl UiContext {
    pub fn new(batch: KataFontBatch) -> (ctx: Self)
        ensures
            ctx.relayout,
            ctx.batch@ == batch@,
    {
        Self { relayout: true, batch }
    }
}

/// Whether an event goes on to the next element or was used up.
pub type EventResult = Result<Continue, Stop>;

/// A part of the user interface: it takes a size within constraints, and
/// handles events within the bounds that it is given.
pub trait Element {
    /// Chooses the size of the element under the given constraints.
    fn layout(&mut self, constraints: BoxConstraints) -> Size;

    /// Handles an event; the element lies at `bounds`.
    fn handle_event(&mut self, ctx: &mut UiContext, event: Event, bounds: IRect) -> EventResult;
}

/// Whether an element of the type `T` may take the size `size` when it is
/// laid out under `constraints`.
pub open spec fn lays_out<T: Element + ?Sized>(constraints: BoxConstraints, size: Size) -> bool {
    exists|element: &mut T| #[trigger] call_ensures(T::layout, (element, constraints), size)
}

/// Whether an element of the type `T` may answer `r` when it is handed
/// `event` at `bounds`.
pub open spec fn handles<T: Element + ?Sized>(event: Event, bounds: IRect, r: EventResult) -> bool {
    exists|element: &mut T, ctx: &mut UiContext| #[trigger]
        call_ensures(T::handle_event, (element, ctx, event, bounds), r)
}

/// Whether an element of the type `T` may let `event` pass when it is handed
/// it at `bounds`.
pub open spec fn lets_pass<T: Element + ?Sized>(event: Event, bounds: IRect) -> bool {
    exists|r: EventResult| r is Ok && #[trigger] handles::<T>(event, bounds, r)
}

impl<T: Element + ?Sized> Element for Box<T> {
    /// Lays out the element in the box, and takes the size that it takes.
    fn layout(&mut self, constraints: BoxConstraints) -> (size: Size)
        ensures
            lays_out::<T>(constraints, size),
    {
        let inner: &mut T = &mut **self;
        inner.layout(constraints)
    }

    /// Hands the event on to the element in the box, and answers what it
    /// answers.
    fn handle_event(&mut self, ctx: &mut UiContext, event: Event, bounds: IRect) -> (r:
        EventResult)
        ensures
            handles::<T>(event, bounds, r),
    {
        let inner: &mut T = &mut **self;
        inner.handle_event(ctx, event, bounds)
    }
}

/// The place of a voxel of a rectangle that is filled row by row, each
/// coordinate stopping at the largest number.
pub open spec fn fill_glyph(voxel: Voxel2, bounds: IRect, i: int) -> Glyph {
    Glyph {
        voxel,
        dest: Point2 {
            x: spec_saturating_add(bounds.x as int, i % (bounds.w as int)),
            y: spec_saturating_add(bounds.y as int, i / (bounds.w as int)),
        },
    }
}

/// The glyphs that fill a rectangle with one voxel, row by row.
pub open spec fn fill_glyphs(voxel: Voxel2, bounds: IRect) -> Seq<Glyph> {
    Seq::new((bounds.w * bounds.h) as nat, |i: int| fill_glyph(voxel, bounds, i))
}

/// Draws `voxel` on every tile of `bounds`, row by row.
pub fn fill_rect(batch: &mut KataFontBatch, voxel: &Voxel2, bounds: IRect)
    ensures
        final(batch)@ == old(batch)@ + fill_glyphs(*voxel, bounds),
{
    let ghost start = batch@;
    let ghost all = fill_glyphs(*voxel, bounds);
    let mut row: u32 = 0;
    proof {
        assert(0 * bounds.w == 0) by (nonlinear_arith);
        assert(start =~= start + all.take(0));
    }
    while row < bounds.h
        invariant
            row <= bounds.h,
            all == fill_glyphs(*voxel, bounds),
            batch@ == start + all.take(row * bounds.w),
        decreases bounds.h - row,
    {
        let mut col: u32 = 0;
        proof {
            assert(row * bounds.w + bounds.w == (row + 1) * bounds.w) by (nonlinear_arith);
            assert((row + 1) * bounds.w <= bounds.h * bounds.w) by (nonlinear_arith)
                requires
                    row + 1 <= bounds.h,
                    0 <= bounds.w,
            ;
            assert(bounds.h * bounds.w == bounds.w * bounds.h) by (nonlinear_arith);
        }
        while col < bounds.w
            invariant
                row < bounds.h,
                col <= bounds.w,
                all == fill_glyphs(*voxel, bounds),
                row * bounds.w + bounds.w <= bounds.w * bounds.h,
                batch@ == start + all.take(row * bounds.w + col),
            decreases bounds.w - col,
        {
            let ghost i = row * bounds.w + col;
            proof {
                assert(i == (bounds.w as int) * (row as int) + col) by (nonlinear_arith)
                    requires
                        i == row * bounds.w + col,
                ;
                lemma_fundamental_div_mod_converse(i, bounds.w as int, row as int, col as int);
            }
            let dest = Point2 {
                x: saturating_add_u32(bounds.x, col),
                y: saturating_add_u32(bounds.y, row),
            };
            batch.add(voxel, dest);
            proof {
                assert(all[i] == (Glyph { voxel: *voxel, dest }));
                assert(all.take(i + 1) =~= all.take(i).push(all[i]));
                assert(batch@ =~= start + all.take(i + 1));
            }
            col += 1;
        }
        row += 1;
    }
    proof {
        assert(bounds.h * bounds.w == bounds.w * bounds.h) by (nonlinear_arith);
        assert(all.take(all.len() as int) =~= all);
    }
}

/// The space that a padding takes in all: across, the padding at the left
/// and at the right; down, the padding at the top and at the bottom.
pub open spec fn padding_extent(top: u32, right: u32, bottom: u32, left: u32) -> Size {
    Size {
        width: spec_saturating_add(right as int, left as int),
        height: spec_saturating_add(top as int, bottom as int),
    }
}

/// The bounds of what lies inside a padding: moved in by the padding at the
/// left and at the top, and narrowed by the padding on both sides, never
/// below nothing.
pub open spec fn padded_bounds(bounds: IRect, top: u32, right: u32, bottom: u32, left: u32) -> IRect {
    let extent = padding_extent(top, right, bottom, left);
    IRect {
        x: spec_saturating_add(bounds.x as int, left as int),
        y: spec_saturating_add(bounds.y as int, top as int),
        w: spec_saturating_sub(bounds.w as int, extent.width as int) as u32,
        h: spec_saturating_sub(bounds.h as int, extent.height as int) as u32,
    }
}

/// An element with empty space around it.
pub struct Padding<T> {
    inner: T,
    top: u32,
    right: u32,
    bottom: u32,
    left: u32,
}

impl<T: Element> Padding<T> {
    /// The element inside the padding.
    pub closed spec fn spec_inner(self) -> T {
        self.inner
    }

    /// The widths of the padding: top, right, bottom, left.
    pub closed spec fn widths(self) -> (u32, u32, u32, u32) {
        (self.top, self.right, self.bottom, self.left)
    }

    /// `inner` with the given widths of empty space around it.
    pub fn new(inner: T, top: u32, right: u32, bottom: u32, left: u32) -> (p: Self)
        ensures
            p.spec_inner() == inner,
            p.widths() == (top, right, bottom, left),
    {
        Self { inner, top, right, bottom, left }
    }

    /// The constraints under which the element inside is laid out: both
    /// bounds reduced by the padding.
    pub fn inner_constraints(&self, constraints: BoxConstraints) -> (c: BoxConstraints)
        ensures
            c == padded_constraints(
                constraints,
                self.widths().0,
                self.widths().1,
                self.widths().2,
                self.widths().3,
            ),
    {
        constraints.shrink(
            Size::new(
                saturating_add_u32(self.right, self.left),
                saturating_add_u32(self.top, self.bottom),
            ),
        )
    }

    /// The bounds of the element inside.
    pub fn inner_bounds(&self, bounds: IRect) -> (r: IRect)
        ensures
            r == padded_bounds(
                bounds,
                self.widths().0,
                self.widths().1,
                self.widths().2,
                self.widths().3,
            ),
    {
        IRect::new(
            saturating_add_u32(bounds.x, self.left),
            saturating_add_u32(bounds.y, self.top),
            saturating_sub_u32(bounds.w, saturating_add_u32(self.right, self.left)),
            saturating_sub_u32(bounds.h, saturating_add_u32(self.top, self.bottom)),
        )
    }
}

/// The constraints under which the element inside a padding is laid out:
/// both bounds reduced by the space that the padding takes.
pub open spec fn padded_constraints(
    constraints: BoxConstraints,
    top: u32,
    right: u32,
    bottom: u32,
    left: u32,
) -> BoxConstraints {
    BoxConstraints {
        min: constraints.min.spec_shrink(padding_extent(top, right, bottom, left)),
        max: constraints.max.spec_shrink(padding_extent(top, right, bottom, left)),
    }
}

impl<T: Element> Element for Padding<T> {
    /// Lays out the element inside under the constraints reduced by the
    /// padding, and takes the size that it takes. The padding stays as it
    /// is.
    fn layout(&mut self, constraints: BoxConstraints) -> (size: Size)
        ensures
            final(self).widths() == old(self).widths(),
            exists|inner: &mut T|
                mut_ref_current(inner) == old(self).spec_inner() && mut_ref_future(inner) == final(self).spec_inner() && #[trigger] call_ensures(
                    T::layout,
                    (
                        inner,
                        padded_constraints(
                            constraints,
                            old(self).widths().0,
                            old(self).widths().1,
                            old(self).widths().2,
                            old(self).widths().3,
                        ),
                    ),
                    size,
                ),
    {
        let inner = self.inner_constraints(constraints);
        self.inner.layout(inner)
    }

    /// Hands the event on to the element inside, at the bounds reduced by
    /// the padding, and answers what it answers. The padding stays as it is.
    fn handle_event(&mut self, ctx: &mut UiContext, event: Event, bounds: IRect) -> (r:
        EventResult)
        ensures
            final(self).widths() == old(self).widths(),
            exists|inner: &mut T, seen: &mut UiContext|
                mut_ref_current(inner) == old(self).spec_inner() && mut_ref_future(inner) == final(self).spec_inner() && mut_ref_current(seen) == *old(ctx) && mut_ref_future(seen)
                    == *final(ctx) && #[trigger] call_ensures(
                    T::handle_event,
                    (
                        inner,
                        seen,
                        event,
                        padded_bounds(
                            bounds,
                            old(self).widths().0,
                            old(self).widths().1,
                            old(self).widths().2,
                            old(self).widths().3,
                        ),
                    ),
                    r,
                ),
    {
        let inner = self.inner_bounds(bounds);
        self.inner.handle_event(ctx, event, inner)
    }
}

/// The bounds of an element of the size `inner` in the middle of `bounds`.
pub open spec fn centered_bounds(bounds: IRect, inner: Size) -> IRect {
    IRect {
        x: spec_saturating_add(
            bounds.x as int,
            spec_saturating_sub(bounds.w as int, inner.width as int) / 2,
        ),
        y: spec_saturating_add(
            bounds.y as int,
            spec_saturating_sub(bounds.h as int, inner.height as int) / 2,
        ),
        w: inner.width,
        h: inner.height,
    }
}

/// The bounds of an element of the size `inner` in the middle of `bounds`.
pub fn center_in(bounds: IRect, inner: Size) -> (r: IRect)
    ensures
        r == centered_bounds(bounds, inner),
{
    IRect::new(
        saturating_add_u32(bounds.x, saturating_sub_u32(bounds.w, inner.width) / 2),
        saturating_add_u32(bounds.y, saturating_sub_u32(bounds.h, inner.height) / 2),
        inner.width,
        inner.height,
    )
}

/// An element in the middle of all the space there is.
pub struct Centered<T> {
    inner: T,
    inner_size: Option<Size>,
}

impl<T: Element> Centered<T> {
    /// The element in the middle.
    pub closed spec fn spec_inner(self) -> T {
        self.inner
    }

    /// The size that the element in the middle took when it was laid out.
    pub closed spec fn spec_inner_size(self) -> Option<Size> {
        self.inner_size
    }

    /// `inner` in the middle of the space; not laid out yet.
    pub fn new(inner: T) -> (c: Self)
        ensures
            c.spec_inner() == inner,
            c.spec_inner_size() is None,
    {
        Self { inner, inner_size: None }
    }
}

impl<T: Element> Element for Centered<T> {
    /// Lets the element inside take any size up to the greatest one, and
    /// takes the greatest size itself.
    fn layout(&mut self, constraints: BoxConstraints) -> (size: Size)
        ensures
            size == constraints.max,
            final(self).spec_inner_size() is Some,
    {
        let inner = self.inner.layout(BoxConstraints::new(Size::new(0, 0), constraints.max));
        self.inner_size = Some(inner);
        constraints.max
    }

    /// Hands the event on to the element inside, which lies in the middle
    /// of `bounds`; before the first layout there is nothing to hand it to.
    fn handle_event(&mut self, ctx: &mut UiContext, event: Event, bounds: IRect) -> (r:
        EventResult)
        ensures
            final(self).spec_inner_size() == old(self).spec_inner_size(),
            old(self).spec_inner_size() is None ==> r is Ok && *final(ctx) == *old(ctx) && final(self).spec_inner()
                == old(self).spec_inner(),
            old(self).spec_inner_size() matches Some(inner_size) ==> exists|
                inner: &mut T,
                seen: &mut UiContext,
            |
                mut_ref_current(inner) == old(self).spec_inner() && mut_ref_future(inner) == final(self).spec_inner()
                    && mut_ref_current(seen) == *old(ctx) && mut_ref_future(seen) == *final(ctx)
                    && #[trigger] call_ensures(
                    T::handle_event,
                    (inner, seen, event, centered_bounds(bounds, inner_size)),
                    r,
                ),
    {
        match self.inner_size {
            Some(inner_size) => self.inner.handle_event(ctx, event, center_in(bounds, inner_size)),
            None => Ok(Continue),
        }
    }
}

/// The glyph that is drawn in the place of a character that is not ASCII: a
/// square.
pub const SQUARE_GLYPH: u16 = 0x082D;

/// The glyph of a character: the number of an ASCII character, the square
/// for any other.
pub open spec fn glyph_of(c: char) -> u16 {
    if (c as u32) < 128 {
        c as u16
    } else {
        SQUARE_GLYPH
    }
}

/// The voxels of a text in one colour: one for each character.
pub open spec fn text_voxels(s: Seq<char>, color: Color) -> Seq<Voxel2> {
    Seq::new(s.len(), |i: int| Voxel2 { foreground: color, ..Voxel2::plain(glyph_of(s[i])) })
}

/// A number of voxels or elements as layout counts it: what remains of it in
/// 32 bits.
pub open spec fn count_in_u32(len: nat) -> u32 {
    (len % 0x1_0000_0000) as u32
}

/// The size that a text of `n` voxels takes: as wide as the text, but no
/// wider than the greatest width and no narrower than the least; as high as
/// the number of lines of the greatest width that the text fills. Nothing
/// where the greatest width is nothing.
pub open spec fn text_size(n: u32, constraints: BoxConstraints) -> Size {
    if constraints.max.width == 0 {
        Size { width: 0, height: 0 }
    } else {
        Size {
            width: spec_max(
                spec_min(n as int, constraints.max.width as int),
                constraints.min.width as int,
            ) as u32,
            height: (n / constraints.max.width + if n % constraints.max.width > 0 {
                1int
            } else {
                0int
            }) as u32,
        }
    }
}

/// The glyphs of a text that is drawn into `bounds`: line after line of the
/// width of the bounds.
pub open spec fn text_glyphs(voxels: Seq<Voxel2>, bounds: IRect) -> Seq<Glyph> {
    Seq::new(voxels.len(), |i: int| fill_glyph(voxels[i], bounds, count_in_u32(i as nat) as int))
}

/// A number of voxels or elements as layout counts it.
fn count_of(len: usize) -> (n: u32)
    ensures
        n == count_in_u32(len as nat),
{
    ((len as u64) % 0x1_0000_0000) as u32
}

/// A text: a row of voxels that is broken into lines.
pub struct KataText {
    pub voxels: Vec<Voxel2>,
}

impl KataText {
    /// The text of the given voxels.
    pub fn from_voxels(voxels: Vec<Voxel2>) -> (t: Self)
        ensures
            t.voxels == voxels,
    {
        Self { voxels }
    }

    /// The text of the given characters in one colour. A character that is
    /// not ASCII shows as a square.
    pub fn from_colored_str(s: &str, color: Color) -> (t: Self)
        ensures
            t.voxels@ == text_voxels(s@, color),
    {
        let n = s.unicode_len();
        let mut voxels: Vec<Voxel2> = Vec::new();
        let mut i: usize = 0;
        while i < n
            invariant
                n == s@.len(),
                i <= n,
                voxels@ == text_voxels(s@, color).take(i as int),
            decreases n - i,
        {
            let c = s.get_char(i);
            let glyph: u16 = if (c as u32) < 128 {
                c as u32 as u16
            } else {
                SQUARE_GLYPH
            };
            voxels.push(Voxel2::new(glyph).foreground(color));
            proof {
                let all = text_voxels(s@, color);
                assert(all.take(i + 1) =~= all.take(i as int).push(all[i as int]));
            }
            i += 1;
        }
        proof {
            let all = text_voxels(s@, color);
            assert(all.take(n as int) =~= all);
        }
        Self::from_voxels(voxels)
    }

    /// The text of the given characters in white.
    pub fn from_str(s: &str) -> (t: Self)
        ensures
            t.voxels@ == text_voxels(s@, Color { r: 255, g: 255, b: 255 }),
    {
        Self::from_colored_str(s, crate::rendering::color::white())
    }
}

impl Element for KataText {
    /// Takes the width of the text within the constraints, and a line for
    /// every stretch of the greatest width.
    fn layout(&mut self, constraints: BoxConstraints) -> (size: Size)
        ensures
            size == text_size(count_in_u32(old(self).voxels@.len()), constraints),
            final(self).voxels == old(self).voxels,
    {
        let n = count_of(self.voxels.len());
        if constraints.max.width == 0 {
            Size::new(0, 0)
        } else {
            let lines = n / constraints.max.width;
            let rest: u32 = if n % constraints.max.width > 0 {
                1
            } else {
                0
            };
            proof {
                lemma_fundamental_div_mod(n as int, constraints.max.width as int);
                lemma_mod_bound(n as int, constraints.max.width as int);
            }
            assert(lines + rest <= u32::MAX) by (nonlinear_arith)
                requires
                    n == constraints.max.width * lines + n % constraints.max.width,
                    rest == 1 ==> n % constraints.max.width > 0,
                    rest <= 1,
                    constraints.max.width >= 1,
                    0 <= lines,
                    n <= u32::MAX,
            ;
            Size::new(
                max_u32(min_u32(n, constraints.max.width), constraints.min.width),
                lines + rest,
            )
        }
    }

    /// Draws the text into `bounds`, line after line; other events pass.
    fn handle_event(&mut self, ctx: &mut UiContext, event: Event, bounds: IRect) -> (r:
        EventResult)
        ensures
            r is Ok,
            final(self).voxels == old(self).voxels,
            final(ctx).relayout == old(ctx).relayout,
            final(ctx).batch@ == if event == Event::Draw && bounds.w > 0 {
                old(ctx).batch@ + text_glyphs(old(self).voxels@, bounds)
            } else {
                old(ctx).batch@
            },
    {
        match event {
            Event::Draw => {
                if bounds.w > 0 {
                    let ghost start = ctx.batch@;
                    let ghost all = text_glyphs(self.voxels@, bounds);
                    let mut i: usize = 0;
                    proof {
                        assert(start =~= start + all.take(0));
                    }
                    while i < self.voxels.len()
                        invariant
                            i <= self.voxels@.len(),
                            bounds.w > 0,
                            all == text_glyphs(self.voxels@, bounds),
                            ctx.batch@ == start + all.take(i as int),
                            ctx.relayout == old(ctx).relayout,
                        decreases self.voxels@.len() - i,
                    {
                        let k = count_of(i);
                        let dest = Point2 {
                            x: saturating_add_u32(bounds.x, k % bounds.w),
                            y: saturating_add_u32(bounds.y, k / bounds.w),
                        };
                        ctx.batch.add(&self.voxels[i], dest);
                        proof {
                            assert(all[i as int] == (Glyph { voxel: self.voxels@[i as int], dest }));
                            assert(all.take(i + 1) =~= all.take(i as int).push(all[i as int]));
                            assert(ctx.batch@ =~= start + all.take(i + 1));
                        }
                        i += 1;
                    }
                    proof {
                        assert(all.take(all.len() as int) =~= all);
                    }
                }
                Ok(Continue)
            },
            _ => Ok(Continue),
        }
    }
}

/// Something that shows a voxel which may change from one look to the next.
pub trait VoxelSource {
    /// The voxel to show now.
    fn get(&self) -> Voxel2;
}

impl VoxelSource for Voxel2 {
    fn get(&self) -> (v: Voxel2)
        ensures
            v == *self,
    {
        *self
    }
}

/// One tile that shows the voxel of a source.
pub struct VoxelDisplay<B> {
    pub voxel: B,
}

impl<B: VoxelSource> VoxelDisplay<B> {
    pub fn new(voxel: B) -> (d: Self)
        ensures
            d.voxel == voxel,
    {
        Self { voxel }
    }
}

impl<B: VoxelSource> Element for VoxelDisplay<B> {
    /// Takes the least size, but one tile at least each way.
    fn layout(&mut self, constraints: BoxConstraints) -> (size: Size)
        ensures
            size == (Size {
                width: spec_max(constraints.min.width as int, 1) as u32,
                height: spec_max(constraints.min.height as int, 1) as u32,
            }),
            final(self).voxel == old(self).voxel,
    {
        Size::new(max_u32(constraints.min.width, 1), max_u32(constraints.min.height, 1))
    }

    /// Draws the voxel of the source on the first tile of `bounds`; other
    /// events pass.
    fn handle_event(&mut self, ctx: &mut UiContext, event: Event, bounds: IRect) -> (r:
        EventResult)
        ensures
            r is Ok,
            final(self).voxel == old(self).voxel,
            final(ctx).relayout == old(ctx).relayout,
            event != Event::Draw ==> final(ctx).batch@ == old(ctx).batch@,
            event == Event::Draw ==> final(ctx).batch@.len() == old(ctx).batch@.len() + 1
                && final(ctx).batch@.last().dest == (Point2 { x: bounds.x, y: bounds.y })
                && final(ctx).batch@.drop_last() == old(ctx).batch@,
    {
        match event {
            Event::Draw => {
                let voxel = self.voxel.get();
                ctx.batch.add(&voxel, bounds.point());
                proof {
                    assert(ctx.batch@.drop_last() =~= old(ctx).batch@);
                }
            },
            _ => {},
        }
        Ok(Continue)
    }
}

/// A rectangle of one voxel whose size a function chooses.
pub struct Placeholder<F: Fn(BoxConstraints) -> Size> {
    voxel: Voxel2,
    size_fn: F,
}

impl<F: Fn(BoxConstraints) -> Size> Placeholder<F> {
    #[verifier::type_invariant]
    spec fn callable(self) -> bool {
        forall|constraints: BoxConstraints| call_requires(self.size_fn, (constraints,))
    }

    /// The voxel that fills the placeholder.
    pub closed spec fn spec_voxel(self) -> Voxel2 {
        self.voxel
    }

    /// The function that chooses the size.
    pub closed spec fn spec_size_fn(self) -> F {
        self.size_fn
    }

    /// A placeholder of the given voxel; `size_fn` must be a function that
    /// can be called with any constraints.
    pub fn new(voxel: Voxel2, size_fn: F) -> (p: Self)
        requires
            forall|constraints: BoxConstraints| call_requires(size_fn, (constraints,)),
        ensures
            p.spec_voxel() == voxel,
            p.spec_size_fn() == size_fn,
    {
        Self { voxel, size_fn }
    }
}

impl<F: Fn(BoxConstraints) -> Size> Element for Placeholder<F> {
    /// Takes the size that the function chooses.
    fn layout(&mut self, constraints: BoxConstraints) -> (size: Size)
        ensures
            call_ensures(old(self).spec_size_fn(), (constraints,), size),
            *final(self) == *old(self),
    {
        proof {
            use_type_invariant(&*self);
        }
        (self.size_fn)(constraints)
    }

    /// Fills `bounds` with the voxel; other events pass.
    fn handle_event(&mut self, ctx: &mut UiContext, event: Event, bounds: IRect) -> (r:
        EventResult)
        ensures
            r is Ok,
            *final(self) == *old(self),
            final(ctx).relayout == old(ctx).relayout,
            final(ctx).batch@ == if event == Event::Draw {
                old(ctx).batch@ + fill_glyphs(old(self).spec_voxel(), bounds)
            } else {
                old(ctx).batch@
            },
    {
        match event {
            Event::Draw => {
                fill_rect(&mut ctx.batch, &self.voxel, bounds);
            },
            _ => {},
        }
        Ok(Continue)
    }
}

/// A rectangle of one voxel that takes all the space there is.
pub struct Filling {
    voxel: Voxel2,
}

impl Filling {
    /// The voxel that fills the rectangle.
    pub closed spec fn spec_voxel(self) -> Voxel2 {
        self.voxel
    }

    pub fn new(voxel: Voxel2) -> (f: Self)
        ensures
            f.spec_voxel() == voxel,
    {
        Self { voxel }
    }

    /// A filling of blank voxels.
    pub fn blank() -> (f: Self)
        ensures
            f.spec_voxel() == Voxel2::plain(0),
    {
        Self::new(Voxel2::new(0))
    }
}

impl Element for Filling {
    /// Takes the greatest size.
    fn layout(&mut self, constraints: BoxConstraints) -> (size: Size)
        ensures
            size == constraints.max,
            *final(self) == *old(self),
    {
        constraints.max
    }

    /// Fills `bounds` with the voxel; other events pass.
    fn handle_event(&mut self, ctx: &mut UiContext, event: Event, bounds: IRect) -> (r:
        EventResult)
        ensures
            r is Ok,
            *final(self) == *old(self),
            final(ctx).relayout == old(ctx).relayout,
            final(ctx).batch@ == if event == Event::Draw {
                old(ctx).batch@ + fill_glyphs(old(self).spec_voxel(), bounds)
            } else {
                old(ctx).batch@
            },
    {
        match event {
            Event::Draw => {
                fill_rect(&mut ctx.batch, &self.voxel, bounds);
            },
            _ => {},
        }
        Ok(Continue)
    }
}

/// A handler of the events of an element of the type `T`: a function that
/// can be called with any element, context, event and bounds.
struct Handler<T, F: Fn(&T, &mut UiContext, Event, IRect) -> EventResult> {
    function: F,
    element: PhantomData<T>,
}

impl<T, F: Fn(&T, &mut UiContext, Event, IRect) -> EventResult> Handler<T, F> {
    #[verifier::type_invariant]
    spec fn callable(self) -> bool {
        forall|element: &T, ctx: &mut UiContext, event: Event, bounds: IRect|
            call_requires(self.function, (element, ctx, event, bounds))
    }

    fn new(function: F) -> (h: Self)
        requires
            forall|element: &T, ctx: &mut UiContext, event: Event, bounds: IRect|
                call_requires(function, (element, ctx, event, bounds)),
        ensures
            h.function == function,
    {
        Handler { function, element: PhantomData }
    }

    /// Calls the function, and answers what it answers.
    fn call(&self, element: &T, ctx: &mut UiContext, event: Event, bounds: IRect) -> (r:
        EventResult)
        ensures
            exists|seen: &mut UiContext|
                mut_ref_current(seen) == *old(ctx) && mut_ref_future(seen) == *final(ctx)
                    && #[trigger] call_ensures(self.function, (element, seen, event, bounds), r),
    {
        proof {
            use_type_invariant(self);
        }
        (self.function)(element, ctx, event, bounds)
    }
}

/// An element with a handler that sees every event before the element does.
pub struct WithEvents<T, F: Fn(&T, &mut UiContext, Event, IRect) -> EventResult> {
    element: T,
    handler: Handler<T, F>,
}

impl<T: Element, F: Fn(&T, &mut UiContext, Event, IRect) -> EventResult> WithEvents<T, F> {
    /// The element.
    pub closed spec fn spec_element(self) -> T {
        self.element
    }

    /// The handler.
    pub closed spec fn spec_handler(self) -> F {
        self.handler.function
    }

    /// The element.
    pub fn element(&self) -> (e: &T)
        ensures
            *e == self.spec_element(),
    {
        &self.element
    }
}

impl<T: Element, F: Fn(&T, &mut UiContext, Event, IRect) -> EventResult> Element for WithEvents<
    T,
    F,
> {
    /// Lays out the element, and takes the size that it takes. The handler
    /// stays as it is.
    fn layout(&mut self, constraints: BoxConstraints) -> (size: Size)
        ensures
            final(self).spec_handler() == old(self).spec_handler(),
            exists|inner: &mut T|
                mut_ref_current(inner) == old(self).spec_element() && mut_ref_future(inner) == final(self).spec_element()
                    && #[trigger] call_ensures(T::layout, (inner, constraints), size),
    {
        self.element.layout(constraints)
    }

    /// Hands the event to the handler. If the handler uses it up, that is
    /// the answer, and the element does not see the event. Else the event
    /// goes on to the element, in the context as the handler left it, and
    /// the answer is that the event was used up if the element used it up.
    fn handle_event(&mut self, ctx: &mut UiContext, event: Event, bounds: IRect) -> (r:
        EventResult)
        ensures
            final(self).spec_handler() == old(self).spec_handler(),
            exists|first: &mut UiContext, answer: EventResult|
                mut_ref_current(first) == *old(ctx) && #[trigger] call_ensures(
                    old(self).spec_handler(),
                    (&old(self).spec_element(), first, event, bounds),
                    answer,
                ) && if answer is Err {
                    r == answer && mut_ref_future(first) == *final(ctx) && final(self).spec_element()
                        == old(self).spec_element()
                } else {
                    exists|inner: &mut T, second: &mut UiContext, own: EventResult|
                        mut_ref_current(inner) == old(self).spec_element() && mut_ref_future(inner)
                            == final(self).spec_element() && mut_ref_current(second)
                            == mut_ref_future(first) && mut_ref_future(second) == *final(ctx)
                            && #[trigger] call_ensures(
                            T::handle_event,
                            (inner, second, event, bounds),
                            own,
                        ) && r == if own is Err {
                            own
                        } else {
                            Ok(Continue)
                        }
                },
    {
        let answer = self.handler.call(&self.element, ctx, event, bounds);
        assert(self.handler.function == old(self).spec_handler());
        assert(self.element == old(self).spec_element());
        match answer {
            Err(stop) => Err(stop),
            Ok(_) => match self.element.handle_event(ctx, event, bounds) {
                Err(stop) => Err(stop),
                Ok(_) => Ok(Continue),
            },
        }
    }
}

/// Giving an element a handler of events.
pub trait ElementExt: Element + Sized {
    /// The element with a handler that sees every event before the element
    /// does. The handler must be a function that can be called with any
    /// element, context, event and bounds.
    fn with_events<F>(self, handler: F) -> (w: WithEvents<Self, F>) where
        F: Fn(&Self, &mut UiContext, Event, IRect) -> EventResult,

        requires
            forall|element: &Self, ctx: &mut UiContext, event: Event, bounds: IRect|
                call_requires(handler, (element, ctx, event, bounds)),
        ensures
            w.spec_element() == self,
            w.spec_handler() == handler,
    ;
}

impl<T: Element + Sized> ElementExt for T {
    fn with_events<F>(self, handler: F) -> (w: WithEvents<Self, F>) where
        F: Fn(&Self, &mut UiContext, Event, IRect) -> EventResult,
     {
        WithEvents { element: self, handler: Handler::new(handler) }
    }
}

/// `flo_binding::Binding`: a value that is shared among those who hold the
/// binding. The proofs see nothing of what is in it.
#[verifier::external_type_specification]
#[verifier::external_body]
#[verifier::reject_recursive_types(Value)]
pub struct ExBinding<Value>(flo_binding::Binding<Value>);

/// `flo_binding::bind`: a new binding that holds `value` and that nobody
/// else has yet.
#[verifier::external_body]
fn binding_new(value: u32) -> (binding: flo_binding::Binding<u32>) {
    flo_binding::bind(value)
}

/// `flo_binding::Bound::get` on a `Binding`: the value that the binding
/// holds at the time of the call. A binding is shared, so nothing is known
/// of the value before the call.
#[verifier::external_body]
fn binding_get(binding: &flo_binding::Binding<u32>) -> (value: u32) {
    flo_binding::Bound::get(binding)
}

/// `flo_binding::MutableBound::set` on a `Binding`: stores the value in the
/// binding and tells those who watch it.
#[verifier::external_body]
fn binding_set(binding: &flo_binding::Binding<u32>, value: u32) {
    flo_binding::MutableBound::set(binding, value)
}

/// `a / b * c`, rounded to the nearest whole number, a half rounded up, and
/// stopping at the largest number. Where `b` is zero the quotient is without
/// bound, and so is the result, unless `a` or `c` is zero, which makes it
/// zero.
pub open spec fn spec_scaled_round(a: int, b: int, c: int) -> u32 {
    if b == 0 {
        if a == 0 || c == 0 {
            0
        } else {
            u32::MAX
        }
    } else {
        spec_min((2 * a * c + b) / (2 * b), u32::MAX as int) as u32
    }
}

/// `a / b * c`, rounded to the nearest whole number.
pub fn scaled_round(a: u32, b: u32, c: u32) -> (r: u32)
    ensures
        r == spec_scaled_round(a as int, b as int, c as int),
{
    if b == 0 {
        if a == 0 || c == 0 {
            0
        } else {
            u32::MAX
        }
    } else {
        proof {
            vstd::arithmetic::mul::lemma_mul_upper_bound(
                a as int,
                0xffff_ffff,
                c as int,
                0xffff_ffff,
            );
            assert(2 * a * c == 2 * (a * c)) by (nonlinear_arith);
        }
        let twice: u128 = 2 * ((a as u128) * (c as u128));
        let q: u128 = (twice + b as u128) / (2 * b as u128);
        if q > u32::MAX as u128 {
            u32::MAX
        } else {
            q as u32
        }
    }
}

/// Where a scroll bar goes when it is told to go from `old_pos` to
/// `new_pos`: nowhere if that is where it is, else to `new_pos`, but no
/// farther than `scroll_max`.
pub fn scroll_target(old_pos: u32, new_pos: u32, scroll_max: u32) -> (target: Option<u32>)
    ensures
        target == if old_pos != new_pos {
            Some(spec_min(new_pos as int, scroll_max as int) as u32)
        } else {
            None
        },
{
    if old_pos != new_pos {
        Some(min_u32(new_pos, scroll_max))
    } else {
        None
    }
}

/// What a click on a scroll bar asks for.
#[derive(Clone, Copy, Debug, PartialEq, Eq, Structural)]
pub enum ScrollClick {
    /// One step towards the start.
    Up,
    /// One step towards the end.
    Down,
    /// To the given position.
    To(u32),
    /// Nothing: the click hit the caret.
    Stay,
}

/// What a click asks for that hits a scroll bar `clicked` tiles from its
/// start: a step up on the first tile, a step down on the tile before
/// `dir_end`, nothing on the caret, and elsewhere the position that lies as
/// far along the way to `scroll_max` as the click lies along the bar, which
/// is `bar_length` tiles long between its arrows.
pub open spec fn spec_scroll_click(
    clicked: u32,
    dir_end: u32,
    caret: u32,
    bar_length: u32,
    scroll_max: u32,
) -> ScrollClick {
    if clicked == 0 {
        ScrollClick::Up
    } else if clicked == spec_saturating_sub(dir_end as int, 1) {
        ScrollClick::Down
    } else if clicked != caret {
        ScrollClick::To(
            spec_scaled_round(
                clicked - 1,
                spec_saturating_sub(bar_length as int, 1),
                scroll_max as int,
            ),
        )
    } else {
        ScrollClick::Stay
    }
}

/// What a click asks for that hits a scroll bar `clicked` tiles from its
/// start.
pub fn scroll_click(clicked: u32, dir_end: u32, caret: u32, bar_length: u32, scroll_max: u32) -> (click:
    ScrollClick)
    ensures
        click == spec_scroll_click(clicked, dir_end, caret, bar_length, scroll_max),
{
    if clicked == 0 {
        ScrollClick::Up
    } else if clicked == saturating_sub_u32(dir_end, 1) {
        ScrollClick::Down
    } else if clicked != caret {
        ScrollClick::To(scaled_round(clicked - 1, saturating_sub_u32(bar_length, 1), scroll_max))
    } else {
        ScrollClick::Stay
    }
}

/// The place on the screen of the tile `along` tiles along a direction and
/// `across` tiles across it.
pub open spec fn spec_place(direction: LayoutDirection, along: u32, across: u32) -> Point2 {
    match direction {
        LayoutDirection::Horizontal => Point2 { x: along, y: across },
        LayoutDirection::Vertical => Point2 { x: across, y: along },
    }
}

fn place(direction: LayoutDirection, along: u32, across: u32) -> (p: Point2)
    ensures
        p == spec_place(direction, along, across),
{
    match direction {
        LayoutDirection::Horizontal => Point2 { x: along, y: across },
        LayoutDirection::Vertical => Point2 { x: across, y: along },
    }
}

/// The glyphs of a run of one voxel along a direction, from the tile `from`
/// up to, but not including, the tile `to`.
pub open spec fn run_glyphs(
    voxel: Voxel2,
    direction: LayoutDirection,
    from: u32,
    to: u32,
    across: u32,
) -> Seq<Glyph> {
    Seq::new(
        spec_saturating_sub(to as int, from as int) as nat,
        |i: int| Glyph { voxel, dest: spec_place(direction, (from + i) as u32, across) },
    )
}

/// Draws a run of one voxel along a direction.
fn draw_run(
    batch: &mut KataFontBatch,
    voxel: &Voxel2,
    direction: LayoutDirection,
    from: u32,
    to: u32,
    across: u32,
)
    ensures
        final(batch)@ == old(batch)@ + run_glyphs(*voxel, direction, from, to, across),
{
    let ghost start = batch@;
    let ghost all = run_glyphs(*voxel, direction, from, to, across);
    let mut at = from;
    proof {
        assert(start =~= start + all.take(0));
    }
    while at < to
        invariant
            from <= at,
            at <= to || at == from,
            all == run_glyphs(*voxel, direction, from, to, across),
            batch@ == start + all.take(at - from),
        decreases to - at,
    {
        batch.add(voxel, place(direction, at, across));
        proof {
            let i = at - from;
            assert(all.take(i + 1) =~= all.take(i).push(all[i]));
            assert(batch@ =~= start + all.take(i + 1));
        }
        at += 1;
    }
    proof {
        assert(all.take(all.len() as int) =~= all);
    }
}

/// The voxels of which a scroll bar is drawn.
pub struct BarVoxels {
    pub first_arrow: Voxel2,
    pub last_arrow: Voxel2,
    pub caret: Voxel2,
    pub background: Voxel2,
}

/// The voxels of a scroll bar along a direction: arrows that point along
/// it, a caret, and a background.
pub open spec fn bar_voxels(direction: LayoutDirection) -> BarVoxels {
    let gray = Some(Color { r: 127, g: 127, b: 127 });
    let dark = Some(Color { r: 191, g: 191, b: 191 });
    BarVoxels {
        first_arrow: match direction {
            LayoutDirection::Horizontal => Voxel2 { background: gray, ..Voxel2::plain(0x11) },
            LayoutDirection::Vertical => Voxel2 { background: gray, ..Voxel2::plain(0x1E) },
        },
        last_arrow: match direction {
            LayoutDirection::Horizontal => Voxel2 { background: gray, ..Voxel2::plain(0x10) },
            LayoutDirection::Vertical => Voxel2 { background: gray, ..Voxel2::plain(0x1F) },
        },
        caret: Voxel2 { background: gray, ..Voxel2::plain(0x2EC) },
        background: Voxel2 { background: dark, ..Voxel2::plain(0) },
    }
}

/// The glyphs of one line of a scroll bar: the first arrow at `start`, the
/// background up to the caret, the caret, the background up to the last
/// tile, and the last arrow on the tile before `end`.
pub open spec fn bar_line(
    direction: LayoutDirection,
    start: u32,
    end: u32,
    caret: u32,
    across: u32,
) -> Seq<Glyph> {
    let v = bar_voxels(direction);
    let last = spec_saturating_sub(end as int, 1) as u32;
    seq![Glyph { voxel: v.first_arrow, dest: spec_place(direction, start, across) }] + run_glyphs(
        v.background,
        direction,
        spec_saturating_add(start as int, 1),
        caret,
        across,
    ) + seq![Glyph { voxel: v.caret, dest: spec_place(direction, caret, across) }] + run_glyphs(
        v.background,
        direction,
        spec_saturating_add(caret as int, 1),
        last,
        across,
    ) + seq![Glyph { voxel: v.last_arrow, dest: spec_place(direction, last, across) }]
}

/// The glyphs of the lines of a scroll bar from the line `from` up to, but
/// not including, the line `to`.
pub open spec fn bar_lines(
    direction: LayoutDirection,
    start: u32,
    end: u32,
    caret: u32,
    from: u32,
    to: u32,
) -> Seq<Glyph>
    decreases to - from,
{
    if from >= to {
        Seq::empty()
    } else {
        bar_lines(direction, start, end, caret, from, (to - 1) as u32) + bar_line(
            direction,
            start,
            end,
            caret,
            (to - 1) as u32,
        )
    }
}

/// The glyphs of a scroll bar that lies along `direction` at `bounds`, its
/// caret `caret_pos` tiles behind the first arrow.
pub open spec fn bar_glyphs(direction: LayoutDirection, bounds: IRect, caret_pos: u32) -> Seq<Glyph> {
    let other = direction.spec_other();
    let start = bounds.spec_dir_start(direction) as u32;
    let end = spec_min(bounds.spec_dir_end(direction), u32::MAX as int) as u32;
    let caret = spec_saturating_add(spec_saturating_add(start as int, 1) as int, caret_pos as int);
    bar_lines(
        direction,
        start,
        end,
        caret,
        bounds.spec_dir_start(other) as u32,
        spec_min(bounds.spec_dir_end(other), u32::MAX as int) as u32,
    )
}

/// Draws a scroll bar that lies along `direction` at `bounds`.
pub fn draw_bar(batch: &mut KataFontBatch, direction: LayoutDirection, bounds: IRect, caret_pos: u32)
    ensures
        final(batch)@ == old(batch)@ + bar_glyphs(direction, bounds, caret_pos),
{
    let gray = Some(crate::rendering::color::gray());
    let dark = Some(crate::rendering::color::dark_gray());
    let caret_voxel = Voxel2::new(0x2EC).background(gray);
    let bg = Voxel2::new(0).background(dark);
    let (first_arrow, last_arrow) = match direction {
        LayoutDirection::Horizontal => (
            Voxel2::new(0x11).background(gray),
            Voxel2::new(0x10).background(gray),
        ),
        LayoutDirection::Vertical => (
            Voxel2::new(0x1E).background(gray),
            Voxel2::new(0x1F).background(gray),
        ),
    };
    let other = direction.other();
    let start = bounds.dir_start(direction);
    let end = match direction {
        LayoutDirection::Horizontal => saturating_add_u32(bounds.x, bounds.w),
        LayoutDirection::Vertical => saturating_add_u32(bounds.y, bounds.h),
    };
    let across_start = bounds.dir_start(other);
    let across_end = match direction {
        LayoutDirection::Horizontal => saturating_add_u32(bounds.y, bounds.h),
        LayoutDirection::Vertical => saturating_add_u32(bounds.x, bounds.w),
    };
    let caret = saturating_add_u32(saturating_add_u32(start, 1), caret_pos);
    let last = saturating_sub_u32(end, 1);
    let ghost begin = batch@;
    let mut across = across_start;
    proof {
        assert(begin =~= begin + bar_lines(direction, start, end, caret, across_start, across));
    }
    while across < across_end
        invariant
            across_start <= across,
            across <= across_end || across == across_start,
            first_arrow == bar_voxels(direction).first_arrow,
            last_arrow == bar_voxels(direction).last_arrow,
            caret_voxel == bar_voxels(direction).caret,
            bg == bar_voxels(direction).background,
            last == spec_saturating_sub(end as int, 1),
            batch@ == begin + bar_lines(direction, start, end, caret, across_start, across),
        decreases across_end - across,
    {
        let ghost before = batch@;
        batch.add(&first_arrow, place(direction, start, across));
        draw_run(batch, &bg, direction, saturating_add_u32(start, 1), caret, across);
        batch.add(&caret_voxel, place(direction, caret, across));
        draw_run(batch, &bg, direction, saturating_add_u32(caret, 1), last, across);
        batch.add(&last_arrow, place(direction, last, across));
        proof {
            assert(batch@ =~= before + bar_line(direction, start, end, caret, across));
            assert(bar_lines(direction, start, end, caret, across_start, (across + 1) as u32)
                =~= bar_lines(direction, start, end, caret, across_start, across) + bar_line(
                direction,
                start,
                end,
                caret,
                across,
            ));
        }
        across += 1;
    }
}

/// Where the caret stands on a bar of the given length that is scrolled to
/// `pos` of `scroll_max`: the three tiles of the arrows and the caret are
/// not scrolled over, the rest is, in proportion.
pub open spec fn caret_at(pos: u32, scroll_max: u32, length: u32) -> u32 {
    spec_scaled_round(pos as int, scroll_max as int, spec_saturating_sub(length as int, 3))
}

/// A bar with two arrows and a caret that shows how far a view is scrolled.
/// The position and its bound are bindings that others may share.
pub struct ScrollBar {
    pub scroll_pos: flo_binding::Binding<u32>,
    pub scroll_max: flo_binding::Binding<u32>,
    pub direction: LayoutDirection,
}

impl ScrollBar {
    pub fn new(
        scroll_pos: flo_binding::Binding<u32>,
        scroll_max: flo_binding::Binding<u32>,
        direction: LayoutDirection,
    ) -> (bar: Self)
        ensures
            bar.scroll_pos == scroll_pos,
            bar.scroll_max == scroll_max,
            bar.direction == direction,
    {
        Self { scroll_pos, scroll_max, direction }
    }

    /// Scrolls one step towards the start.
    pub fn scroll_up(&mut self, ctx: &mut UiContext)
        ensures
            *final(self) == *old(self),
            final(ctx).batch@ == old(ctx).batch@,
            old(ctx).relayout ==> final(ctx).relayout,
    {
        let pos = binding_get(&self.scroll_pos);
        self.scroll_to(ctx, saturating_sub_u32(pos, 1));
    }

    /// Scrolls one step towards the end.
    pub fn scroll_down(&mut self, ctx: &mut UiContext)
        ensures
            *final(self) == *old(self),
            final(ctx).batch@ == old(ctx).batch@,
            old(ctx).relayout ==> final(ctx).relayout,
    {
        let pos = binding_get(&self.scroll_pos);
        self.scroll_to(ctx, saturating_add_u32(pos, 1));
    }

    /// Scrolls to `new_pos`, but no farther than the bound, and asks for a
    /// new layout, unless `new_pos` is where the bar is.
    pub fn scroll_to(&mut self, ctx: &mut UiContext, new_pos: u32)
        ensures
            *final(self) == *old(self),
            final(ctx).batch@ == old(ctx).batch@,
            old(ctx).relayout ==> final(ctx).relayout,
    {
        let old_pos = binding_get(&self.scroll_pos);
        let scroll_max = binding_get(&self.scroll_max);
        match scroll_target(old_pos, new_pos, scroll_max) {
            Some(target) => {
                binding_set(&self.scroll_pos, target);
                ctx.relayout = true;
            },
            None => {},
        }
    }

    /// How many tiles behind the first arrow the caret stands on a bar of
    /// the given size: where the position and the bound that the bindings
    /// hold put it.
    fn caret_pos(&self, size: Size) -> (caret: u32)
        ensures
            exists|pos: u32, scroll_max: u32|
                caret == #[trigger] caret_at(pos, scroll_max, size.spec_dir(self.direction)),
    {
        let pos = binding_get(&self.scroll_pos);
        let scroll_max = binding_get(&self.scroll_max);
        let caret = scaled_round(pos, scroll_max, saturating_sub_u32(*size.dir(self.direction), 3));
        assert(caret == caret_at(pos, scroll_max, size.spec_dir(self.direction)));
        caret
    }

    /// The bounds of the bar between its arrows.
    pub fn bar_bounds(&self, bounds: IRect) -> (r: IRect)
        ensures
            r == match self.direction {
                LayoutDirection::Horizontal => IRect {
                    x: spec_saturating_add(bounds.x as int, 1),
                    w: spec_saturating_sub(bounds.w as int, 2) as u32,
                    ..bounds
                },
                LayoutDirection::Vertical => IRect {
                    y: spec_saturating_add(bounds.y as int, 1),
                    h: spec_saturating_sub(bounds.h as int, 2) as u32,
                    ..bounds
                },
            },
    {
        match self.direction {
            LayoutDirection::Horizontal => IRect::new(
                saturating_add_u32(bounds.x, 1),
                bounds.y,
                saturating_sub_u32(bounds.w, 2),
                bounds.h,
            ),
            LayoutDirection::Vertical => IRect::new(
                bounds.x,
                saturating_add_u32(bounds.y, 1),
                bounds.w,
                saturating_sub_u32(bounds.h, 2),
            ),
        }
    }
}

/// The size of a scroll bar: as long as can be, and as thin as can be, but
/// one tile at least.
pub open spec fn bar_size(direction: LayoutDirection, constraints: BoxConstraints) -> Size {
    match direction {
        LayoutDirection::Horizontal => Size {
            width: constraints.max.width,
            height: spec_max(constraints.min.height as int, 1) as u32,
        },
        LayoutDirection::Vertical => Size {
            width: spec_max(constraints.min.width as int, 1) as u32,
            height: constraints.max.height,
        },
    }
}

impl Element for ScrollBar {
    /// Takes all the length there is, and the least thickness.
    fn layout(&mut self, constraints: BoxConstraints) -> (size: Size)
        ensures
            size == bar_size(old(self).direction, constraints),
            *final(self) == *old(self),
    {
        match self.direction {
            LayoutDirection::Horizontal => Size::new(
                constraints.max.width,
                max_u32(constraints.min.height, 1),
            ),
            LayoutDirection::Vertical => Size::new(
                max_u32(constraints.min.width, 1),
                constraints.max.height,
            ),
        }
    }

    /// Scrolls on the wheel, on a click of the left button and on a drag
    /// with it that began on the bar, and uses the event up; draws itself;
    /// lets other events pass.
    fn handle_event(&mut self, ctx: &mut UiContext, event: Event, bounds: IRect) -> (r:
        EventResult)
        ensures
            *final(self) == *old(self),
            !event.concerns(bounds) ==> r is Ok && final(ctx).batch@ == old(ctx).batch@
                && final(ctx).relayout == old(ctx).relayout,
            event is Mouse ==> final(ctx).batch@ == old(ctx).batch@,
            event == Event::Draw ==> r is Ok && final(ctx).relayout == old(ctx).relayout && exists|
                pos: u32,
                scroll_max: u32,
            |
                final(ctx).batch@ == old(ctx).batch@ + bar_glyphs(
                    old(self).direction,
                    bounds,
                    #[trigger] caret_at(
                        pos,
                        scroll_max,
                        (Size { width: bounds.w, height: bounds.h }).spec_dir(
                            old(self).direction,
                        ),
                    ),
                ),
            r is Err <==> old(self).takes(event, bounds),
    {
        let bar_bounds = self.bar_bounds(bounds);
        match event.cull(bounds) {
            Some(Event::Mouse { pos, e }) => match e {
                MouseEvent::WheelUp => {
                    self.scroll_up(ctx);
                    Err(Stop)
                },
                MouseEvent::WheelDown => {
                    self.scroll_down(ctx);
                    Err(Stop)
                },
                MouseEvent::ButtonDown { button } => {
                    if button == MouseButton::Left {
                        let clicked = *pos.dir(self.direction) - bounds.dir_start(self.direction);
                        let dir_end = match self.direction {
                            LayoutDirection::Horizontal => saturating_add_u32(bounds.x, bounds.w),
                            LayoutDirection::Vertical => saturating_add_u32(bounds.y, bounds.h),
                        };
                        let caret = self.caret_pos(bounds.size());
                        let scroll_max = binding_get(&self.scroll_max);
                        match scroll_click(
                            clicked,
                            dir_end,
                            caret,
                            *bar_bounds.size().dir(self.direction),
                            scroll_max,
                        ) {
                            ScrollClick::Up => self.scroll_up(ctx),
                            ScrollClick::Down => self.scroll_down(ctx),
                            ScrollClick::To(target) => self.scroll_to(ctx, target),
                            ScrollClick::Stay => {},
                        }
                        Err(Stop)
                    } else {
                        Ok(Continue)
                    }
                },
                MouseEvent::ButtonDrag { button, start_pos } => {
                    if button == MouseButton::Left && bar_bounds.contains(start_pos) {
                        let scroll_max = binding_get(&self.scroll_max);
                        let target = scaled_round(
                            saturating_sub_u32(
                                *pos.dir(self.direction),
                                bar_bounds.dir_start(self.direction),
                            ),
                            saturating_sub_u32(*bar_bounds.size().dir(self.direction), 1),
                            scroll_max,
                        );
                        self.scroll_to(ctx, target);
                        Err(Stop)
                    } else {
                        Ok(Continue)
                    }
                },
                _ => Ok(Continue),
            },
            Some(Event::Draw) => {
                let caret = self.caret_pos(bounds.size());
                draw_bar(&mut ctx.batch, self.direction, bounds, caret);
                Ok(Continue)
            },
            _ => Ok(Continue),
        }
    }
}

impl ScrollBar {
    /// Whether a bar in `bounds` uses the event up: a turn of the wheel or
    /// a press of the left button on the bar, or a drag with the left
    /// button that began between its arrows.
    pub open spec fn takes(self, event: Event, bounds: IRect) -> bool {
        event matches Event::Mouse { e, .. } && event.concerns(bounds) && match e {
            MouseEvent::WheelUp | MouseEvent::WheelDown => true,
            MouseEvent::ButtonDown { button } => button == MouseButton::Left,
            MouseEvent::ButtonDrag { button, start_pos } => button == MouseButton::Left
                && self.bar_bounds_of(bounds).spec_contains(start_pos),
            MouseEvent::ButtonUp { .. } => false,
        }
    }

    /// The bounds of the bar between its arrows.
    pub open spec fn bar_bounds_of(self, bounds: IRect) -> IRect {
        match self.direction {
            LayoutDirection::Horizontal => IRect {
                x: spec_saturating_add(bounds.x as int, 1),
                w: spec_saturating_sub(bounds.w as int, 2) as u32,
                ..bounds
            },
            LayoutDirection::Vertical => IRect {
                y: spec_saturating_add(bounds.y as int, 1),
                h: spec_saturating_sub(bounds.h as int, 2) as u32,
                ..bounds
            },
        }
    }
}

/// An element of a list, with the size it took when it was laid out.
pub struct ListElement {
    pub element: Box<dyn Element>,
    pub size: Option<Size>,
}

impl ListElement {
    /// An element of a list; not laid out yet.
    pub fn new(element: Box<dyn Element>) -> (e: Self)
        ensures
            e == (ListElement { element, size: None }),
    {
        Self { element, size: None }
    }
}

/// The extent of the first `k` elements of a list that has been laid out:
/// as wide as the widest of them, and as high as all of them together,
/// stopping at the largest number.
pub open spec fn list_extent(elements: Seq<ListElement>, k: int) -> Size
    decreases k,
{
    if k <= 0 {
        Size { width: 0, height: 0 }
    } else {
        let before = list_extent(elements, k - 1);
        let size = match elements[k - 1].size {
            Some(size) => size,
            None => Size { width: 0, height: 0 },
        };
        Size {
            width: spec_max(before.width as int, size.width as int) as u32,
            height: spec_saturating_add(before.height as int, size.height as int),
        }
    }
}

/// Lays out every element of a list under the same constraints, and
/// returns the extent of the list.
pub fn layout_list_elements(elements: &mut Vec<ListElement>, constraints: BoxConstraints) -> (size:
    Size)
    ensures
        final(elements)@.len() == old(elements)@.len(),
        forall|i: int| 0 <= i < final(elements)@.len() ==> (#[trigger] final(elements)@[i]).size is Some,
        size == list_extent(final(elements)@, final(elements)@.len() as int),
{
    let mut size = Size::new(0, 0);
    let n = elements.len();
    let mut i: usize = 0;
    while i < n
        invariant
            n == elements@.len(),
            i <= n,
            forall|j: int| 0 <= j < i ==> (#[trigger] elements@[j]).size is Some,
            size == list_extent(elements@, i as int),
        decreases n - i,
    {
        let ghost before = elements@;
        let element_size = elements[i].element.layout(constraints);
        elements[i].size = Some(element_size);
        proof {
            assert forall|j: int| 0 <= j < i implies elements@[j] == before[j] by {}
            lemma_extent_of_prefix(before, elements@, i as int);
        }
        size.width = max_u32(size.width, element_size.width);
        size.height = saturating_add_u32(size.height, element_size.height);
        i += 1;
    }
    size
}

/// The extent of the first elements of a list depends on those elements
/// only.
proof fn lemma_extent_of_prefix(a: Seq<ListElement>, b: Seq<ListElement>, k: int)
    requires
        0 <= k <= a.len(),
        k <= b.len(),
        forall|j: int| 0 <= j < k ==> a[j].size == b[j].size,
    ensures
        list_extent(a, k) == list_extent(b, k),
    decreases k,
{
    if k > 0 {
        lemma_extent_of_prefix(a, b, k - 1);
    }
}

/// The height of an element of a list, nothing for one that has not been
/// laid out.
pub open spec fn height_of(element: ListElement) -> u32 {
    match element.size {
        Some(size) => size.height,
        None => 0,
    }
}

/// The height of the last `j` elements of a list together, stopping at the
/// largest number.
pub open spec fn tail_height(elements: Seq<ListElement>, j: int) -> u32
    decreases j,
{
    if j <= 0 {
        0
    } else {
        spec_saturating_add(
            tail_height(elements, j - 1) as int,
            height_of(elements[elements.len() - j]) as int,
        )
    }
}

/// How many more elements, counted from the end of a list and behind the
/// last `j`, fit together with those into the height `max_height`.
pub open spec fn tail_fit(elements: Seq<ListElement>, j: int, max_height: u32) -> int
    decreases elements.len() - j,
{
    if j >= elements.len() || j < 0 {
        0
    } else if tail_height(elements, j + 1) > max_height {
        0
    } else {
        1 + tail_fit(elements, j + 1, max_height)
    }
}

/// How far a list can be scrolled: to the element behind which all the
/// rest fits into the height `max_height`.
pub open spec fn spec_list_scroll_max(elements: Seq<ListElement>, max_height: u32) -> u32 {
    spec_saturating_sub(
        count_in_u32((elements.len() - 1) as nat) as int,
        tail_fit(elements, 0, max_height),
    ) as u32
}

/// How far a list can be scrolled: to the element behind which all the
/// rest fits into the height `max_height`.
pub fn list_scroll_max(elements: &Vec<ListElement>, max_height: u32) -> (scroll_max: u32)
    requires
        elements@.len() > 0,
    ensures
        scroll_max == spec_list_scroll_max(elements@, max_height),
{
    let n = elements.len();
    let first = count_of(n - 1);
    let mut scroll_max = first;
    let mut fill_height: u32 = 0;
    let mut j: usize = 0;
    loop
        invariant_except_break
            n == elements@.len(),
            j <= n,
            fill_height == tail_height(elements@, j as int),
            tail_fit(elements@, 0, max_height) == j + tail_fit(elements@, j as int, max_height),
            scroll_max == spec_saturating_sub(first as int, j as int),
        ensures
            scroll_max == spec_saturating_sub(first as int, tail_fit(elements@, 0, max_height)),
        decreases n - j,
    {
        if j >= n {
            break ;
        }
        let height = match elements[n - 1 - j].size {
            Some(size) => size.height,
            None => 0,
        };
        fill_height = saturating_add_u32(fill_height, height);
        if fill_height > max_height {
            break ;
        }
        scroll_max = saturating_sub_u32(scroll_max, 1);
        j += 1;
    }
    scroll_max
}

/// Where the scroll bar of a list lies: along the far side of the bounds of
/// the list, from their top on.
pub open spec fn list_bar_bounds(bounds: IRect, bar: Size) -> IRect {
    IRect {
        x: spec_saturating_sub(
            spec_min(bounds.spec_right(), u32::MAX as int),
            bar.width as int,
        ) as u32,
        y: bounds.y,
        w: bar.width,
        h: bar.height,
    }
}

/// The sizes of the elements of a list.
pub open spec fn list_sizes(elements: Seq<ListElement>) -> Seq<Option<Size>> {
    Seq::new(elements.len(), |i: int| elements[i].size)
}

/// How far below the top of a list that is scrolled to element `first` the
/// elements before `k` reach, stopping at the largest number.
pub open spec fn list_reach(sizes: Seq<Option<Size>>, first: int, k: int) -> u32
    decreases k,
{
    if k <= first || k <= 0 {
        0
    } else {
        match sizes[k - 1] {
            Some(size) => spec_saturating_add(
                list_reach(sizes, first, k - 1) as int,
                size.height as int,
            ),
            None => list_reach(sizes, first, k - 1),
        }
    }
}

/// The places of the elements of a list in `bounds` that is scrolled to
/// element `first`: the elements from `first` on lie one below the other
/// from the top of the bounds, each in its own size, as far as they reach
/// no lower than the lower edge of the bounds. The others have no place.
pub open spec fn list_places(sizes: Seq<Option<Size>>, bounds: IRect, first: u32) -> Seq<
    Option<IRect>,
> {
    Seq::new(
        sizes.len(),
        |i: int|
            match sizes[i] {
                Some(size) => if first <= i && list_reach(sizes, first as int, i + 1)
                    <= spec_saturating_add(bounds.y as int, bounds.h as int) {
                    Some(
                        IRect {
                            x: bounds.x,
                            y: spec_saturating_add(
                                bounds.y as int,
                                list_reach(sizes, first as int, i) as int,
                            ),
                            w: size.width,
                            h: size.height,
                        },
                    )
                } else {
                    None
                },
                None => None,
            },
    )
}

/// More elements of a list reach no less far.
proof fn lemma_reach_grows(sizes: Seq<Option<Size>>, first: int, a: int, b: int)
    requires
        a <= b,
    ensures
        list_reach(sizes, first, a) <= list_reach(sizes, first, b),
    decreases b - a,
{
    if a < b {
        lemma_reach_grows(sizes, first, a, b - 1);
    }
}

/// Whether the scroll bar of a list in `bounds` uses the event up: if the
/// list has one, and the event is one that a bar in its place takes.
pub open spec fn list_bar_takes(
    scrollbar: ScrollBar,
    scrollbar_size: Option<Size>,
    event: Event,
    bounds: IRect,
) -> bool {
    match scrollbar_size {
        Some(bar) => scrollbar.takes(event, list_bar_bounds(bounds, bar)),
        None => false,
    }
}

/// A column of elements that scrolls where it is too high for its place.
pub struct List {
    pub elements: Vec<ListElement>,
    pub scrollbar: ScrollBar,
    pub scrollbar_size: Option<Size>,
}

impl List {
    /// A list without elements.
    pub fn new() -> (list: Self)
        ensures
            list.elements@.len() == 0,
            list.scrollbar_size is None,
            list.scrollbar.direction == LayoutDirection::Vertical,
    {
        Self::from_vec(Vec::new())
    }

    /// A list of the given elements; not laid out yet.
    pub fn from_vec(elements: Vec<ListElement>) -> (list: Self)
        ensures
            list.elements == elements,
            list.scrollbar_size is None,
            list.scrollbar.direction == LayoutDirection::Vertical,
    {
        Self {
            elements,
            scrollbar_size: None,
            scrollbar: ScrollBar::new(binding_new(0), binding_new(0), LayoutDirection::Vertical),
        }
    }

    /// Where the scroll bar of the list lies.
    pub fn bar_bounds(bounds: IRect, bar: Size) -> (r: IRect)
        ensures
            r == list_bar_bounds(bounds, bar),
    {
        IRect::new(
            saturating_sub_u32(saturating_add_u32(bounds.x, bounds.w), bar.width),
            bounds.y,
            bar.width,
            bar.height,
        )
    }
}

impl Element for List {
    /// Lays out the elements one below the other in the width of the list.
    /// If they are higher together than the list may be, the list gets a
    /// scroll bar of one tile, and the elements are laid out again in the
    /// width that is left. The list takes the width of its widest element,
    /// and of the scroll bar, and all the height there is.
    fn layout(&mut self, constraints: BoxConstraints) -> (size: Size)
        ensures
            size.height == constraints.max.height,
            final(self).elements@.len() == old(self).elements@.len(),
            forall|i: int|
                0 <= i < final(self).elements@.len() ==> (#[trigger] final(self).elements@[i]).size is Some,
            final(self).scrollbar_size is None ==> size.width == list_extent(
                final(self).elements@,
                final(self).elements@.len() as int,
            ).width && list_extent(
                final(self).elements@,
                final(self).elements@.len() as int,
            ).height <= constraints.max.height,
            final(self).scrollbar_size matches Some(bar) ==> bar == bar_size(
                old(self).scrollbar.direction,
                (BoxConstraints {
                    min: Size { width: 1, height: constraints.max.height },
                    max: Size { width: 1, height: constraints.max.height },
                }),
            ) && size.width == spec_saturating_add(
                list_extent(final(self).elements@, final(self).elements@.len() as int).width as int,
                1,
            ),
    {
        let elements_size = layout_list_elements(
            &mut self.elements,
            BoxConstraints::new(Size::zero(), Size::new(constraints.max.width, u32::MAX)),
        );
        if elements_size.height > constraints.max.height {
            // The elements overflow: the list gets a scroll bar.
            let scrollbar_size = self.scrollbar.layout(
                BoxConstraints::exact(Size::new(1, constraints.max.height)),
            );
            let elements_size = layout_list_elements(
                &mut self.elements,
                BoxConstraints::new(
                    Size::zero(),
                    Size::new(saturating_sub_u32(constraints.max.width, scrollbar_size.width), u32::MAX),
                ),
            );
            // The list scrolls no farther than to where its end comes into view.
            let scroll_max = if self.elements.len() > 0 {
                list_scroll_max(&self.elements, constraints.max.height)
            } else {
                0
            };
            let scroll_pos = min_u32(binding_get(&self.scrollbar.scroll_pos), scroll_max);
            self.scrollbar_size = Some(scrollbar_size);
            binding_set(&self.scrollbar.scroll_pos, scroll_pos);
            binding_set(&self.scrollbar.scroll_max, scroll_max);
            Size::new(saturating_add_u32(elements_size.width, 1), constraints.max.height)
        } else {
            self.scrollbar_size = None;
            binding_set(&self.scrollbar.scroll_pos, 0);
            binding_set(&self.scrollbar.scroll_max, 0);
            Size::new(elements_size.width, constraints.max.height)
        }
    }

    /// Scrolls by a step on the wheel and uses the event up. Hands any other
    /// event to the scroll bar, if there is one, and then to the elements in
    /// view, from the one scrolled to on, until one of them uses it up. The
    /// element scrolled to is the one that the binding of the bar names at
    /// that time. The sizes of the elements stay as they are.
    fn handle_event(&mut self, ctx: &mut UiContext, event: Event, bounds: IRect) -> (r:
        EventResult)
        ensures
            final(self).elements@.len() == old(self).elements@.len(),
            list_sizes(final(self).elements@) == list_sizes(old(self).elements@),
            final(self).scrollbar_size == old(self).scrollbar_size,
            final(self).scrollbar == old(self).scrollbar,
            event.is_wheel() && event.concerns(bounds) ==> r is Err && *final(ctx) == *old(ctx)
                && final(self).elements@ == old(self).elements@,
            !(event.is_wheel() && event.concerns(bounds)) ==> if list_bar_takes(
                old(self).scrollbar,
                old(self).scrollbar_size,
                event,
                bounds,
            ) {
                r is Err && final(ctx).batch@ == old(ctx).batch@ && final(self).elements@ == old(
                    self,
                ).elements@
            } else {
                exists|first: u32|
                    handed_along(
                        #[trigger] list_places(list_sizes(old(self).elements@), bounds, first),
                        event,
                        r,
                    )
            },
    {
        match event.cull(bounds) {
            Some(Event::Mouse { e, .. }) => match e {
                MouseEvent::WheelUp => {
                    let pos = binding_get(&self.scrollbar.scroll_pos);
                    binding_set(&self.scrollbar.scroll_pos, saturating_sub_u32(pos, 1));
                    return Err(Stop);
                },
                MouseEvent::WheelDown => {
                    let pos = binding_get(&self.scrollbar.scroll_pos);
                    let scroll_max = binding_get(&self.scrollbar.scroll_max);
                    binding_set(
                        &self.scrollbar.scroll_pos,
                        min_u32(saturating_add_u32(pos, 1), scroll_max),
                    );
                    return Err(Stop);
                },
                _ => {},
            },
            _ => {},
        }
        match self.scrollbar_size {
            Some(scrollbar_size) => {
                match self.scrollbar.handle_event(
                    ctx,
                    event,
                    Self::bar_bounds(bounds, scrollbar_size),
                ) {
                    Err(stop) => {
                        return Err(stop);
                    },
                    Ok(_) => {},
                }
            },
            None => {},
        }
        let bottom_edge = saturating_add_u32(bounds.y, bounds.h);
        let n = self.elements.len();
        let scroll_pos = binding_get(&self.scrollbar.scroll_pos);
        let first = scroll_pos as usize;
        let ghost sizes = list_sizes(self.elements@);
        let ghost places = list_places(sizes, bounds, scroll_pos);
        let mut y: u32 = 0;
        let mut i: usize = if first < n {
            first
        } else {
            n
        };
        while i < n
            invariant
                n == self.elements@.len(),
                n == old(self).elements@.len(),
                i <= n,
                first <= i || i == n,
                first == scroll_pos,
                self.scrollbar_size == old(self).scrollbar_size,
                self.scrollbar == old(self).scrollbar,
                !(event.is_wheel() && event.concerns(bounds)),
                !list_bar_takes(old(self).scrollbar, old(self).scrollbar_size, event, bounds),
                bottom_edge == spec_saturating_add(bounds.y as int, bounds.h as int),
                sizes == list_sizes(old(self).elements@),
                list_sizes(self.elements@) == sizes,
                places == list_places(sizes, bounds, scroll_pos),
                y == list_reach(sizes, scroll_pos as int, i as int),
                passed_until(places, event, i as int),
            ensures
                passed_until(places, event, n as int),
            decreases n - i,
        {
            assert(self.elements@[i as int].size == sizes[i as int]);
            match self.elements[i].size {
                Some(size) => {
                    let bottom = saturating_add_u32(y, size.height);
                    if bottom > bottom_edge {
                        proof {
                            assert forall|j: int| 0 <= j < n && (#[trigger] places[j]) is Some implies lets_pass::<
                                dyn Element,
                            >(event, places[j]->Some_0) by {
                                if j >= i {
                                    lemma_reach_grows(sizes, scroll_pos as int, i + 1, j + 1);
                                }
                            }
                        }
                        break ;
                    }
                    let place = IRect::new(
                        bounds.x,
                        saturating_add_u32(bounds.y, y),
                        size.width,
                        size.height,
                    );
                    assert(places[i as int] == Some(place));
                    let answer = self.elements[i].element.handle_event(ctx, event, place);
                    assert(list_sizes(self.elements@) =~= sizes);
                    match answer {
                        Err(stop) => {
                            return Err(stop);
                        },
                        Ok(_) => {},
                    }
                    y = bottom;
                },
                None => {},
            }
            i += 1;
        }
        Ok(Continue)
    }
}

/// The part of `bounds` that begins `offset` tiles along `direction` and is
/// `length` tiles long.
pub open spec fn sliced(bounds: IRect, direction: LayoutDirection, offset: u32, length: u32) -> IRect {
    match direction {
        LayoutDirection::Horizontal => IRect {
            x: spec_saturating_add(bounds.x as int, offset as int),
            w: length,
            ..bounds
        },
        LayoutDirection::Vertical => IRect {
            y: spec_saturating_add(bounds.y as int, offset as int),
            h: length,
            ..bounds
        },
    }
}

/// The part of `bounds` that begins `offset` tiles along `direction` and is
/// `length` tiles long.
pub fn slice_from(bounds: IRect, direction: LayoutDirection, offset: u32, length: u32) -> (r: IRect)
    ensures
        r == sliced(bounds, direction, offset, length),
{
    match direction {
        LayoutDirection::Horizontal => IRect::new(
            saturating_add_u32(bounds.x, offset),
            bounds.y,
            length,
            bounds.h,
        ),
        LayoutDirection::Vertical => IRect::new(
            bounds.x,
            saturating_add_u32(bounds.y, offset),
            bounds.w,
            length,
        ),
    }
}

/// The share of element `i` of `n` in `total`; nothing where there is no
/// element to share among.
pub open spec fn share(i: u32, total: u32, n: u32) -> u32 {
    if n == 0 {
        0
    } else {
        spec_spread(i as int, total as int, n as int) as u32
    }
}

fn share_of(i: u32, total: u32, n: u32) -> (s: u32)
    ensures
        s == share(i, total, n),
        s <= total,
{
    if n == 0 {
        0
    } else {
        proof {
            lemma_fundamental_div_mod(total as int, n as int);
            lemma_mod_bound(total as int, n as int);
            assert(total / n + (if i < total % n { 1int } else { 0int }) <= total) by (nonlinear_arith)
                requires
                    total == n * (total / n) + total % n,
                    0 <= total % n < n,
                    0 <= total / n,
                    n > 0,
            ;
        }
        spread(i, total, n)
    }
}

/// Whether the elements before `k` of a row, each those that have a place,
/// let the event pass when it is handed to them in their places.
pub open spec fn passed_until(places: Seq<Option<IRect>>, event: Event, k: int) -> bool {
    forall|j: int|
        0 <= j < k && (#[trigger] places[j]) is Some ==> lets_pass::<dyn Element>(
            event,
            places[j]->Some_0,
        )
}

/// What holds of the answer `r` when an event was handed to the elements of
/// a row, from the first on, each that has a place in its place, until one
/// of them used it up: the elements up to some element let the event pass;
/// if the answer is that the event was used up, it is the answer of that
/// element; else there is no such element, and all have seen the event.
pub open spec fn handed_along(places: Seq<Option<IRect>>, event: Event, r: EventResult) -> bool {
    exists|k: int|
        0 <= k <= places.len() && #[trigger] passed_until(places, event, k) && if r is Err {
            k < places.len() && places[k] is Some && handles::<dyn Element>(
                event,
                places[k]->Some_0,
                r,
            )
        } else {
            k == places.len()
        }
}

/// How far along a stack its first `k` elements reach, with the dividers
/// between them.
pub open spec fn stack_end(sizes: Seq<Option<u32>>, dividers: bool, k: int) -> u32
    decreases k,
{
    if k <= 0 {
        0
    } else {
        let start = stack_start(stack_end(sizes, dividers, k - 1), dividers, k - 1);
        match sizes[k - 1] {
            Some(size) => spec_saturating_add(start as int, size as int),
            None => start,
        }
    }
}

/// Where element `i` of a stack begins, if the elements before it end at
/// `end`: there, or one tile on, behind the divider.
pub open spec fn stack_start(end: u32, dividers: bool, i: int) -> u32 {
    if dividers && i > 0 {
        spec_saturating_add(end as int, 1)
    } else {
        end
    }
}

/// The places of the elements of a stack that lies in `bounds`: each
/// element that has a length lies behind those before it, in its length
/// along the stack and in all of the bounds across.
pub open spec fn stack_places(
    sizes: Seq<Option<u32>>,
    direction: LayoutDirection,
    dividers: bool,
    bounds: IRect,
) -> Seq<Option<IRect>> {
    Seq::new(
        sizes.len(),
        |i: int|
            match sizes[i] {
                Some(size) => Some(
                    sliced(
                        bounds,
                        direction,
                        stack_start(stack_end(sizes, dividers, i), dividers, i),
                        size,
                    ),
                ),
                None => None,
            },
    )
}

/// An element of a stack, with the length it has along the stack once it
/// was given one.
pub struct StackedElement {
    pub element: Box<dyn Element>,
    pub size: Option<u32>,
}

impl StackedElement {
    /// An element of a stack; without a length yet.
    pub fn new(element: Box<dyn Element>) -> (e: Self)
        ensures
            e == (StackedElement { element, size: None }),
    {
        Self { element, size: None }
    }
}

/// The lengths of the elements of a stack.
pub open spec fn stack_sizes(elements: Seq<StackedElement>) -> Seq<Option<u32>> {
    Seq::new(elements.len(), |i: int| elements[i].size)
}

/// The lengths of the first `k` elements together, as far as they have one,
/// stopping at the largest number.
pub open spec fn sizes_total(sizes: Seq<Option<u32>>, k: int) -> u32
    decreases k,
{
    if k <= 0 {
        0
    } else {
        match sizes[k - 1] {
            Some(size) => spec_saturating_add(sizes_total(sizes, k - 1) as int, size as int),
            None => sizes_total(sizes, k - 1),
        }
    }
}

/// How many of the first `k` elements have no length yet.
pub open spec fn sizes_free(sizes: Seq<Option<u32>>, k: int) -> nat
    decreases k,
{
    if k <= 0 {
        0
    } else {
        sizes_free(sizes, k - 1) + if sizes[k - 1] is None {
            1nat
        } else {
            0nat
        }
    }
}

/// The length that the elements of a stack may take together: the length of
/// the stack, less one tile for each divider between two elements.
pub open spec fn stack_allowance(length: u32, n: u32, dividers: bool) -> u32 {
    if dividers {
        spec_saturating_sub(length as int, spec_saturating_sub(n as int, 1)) as u32
    } else {
        length
    }
}

/// The length that the layout of a stack gives to element `i`. Where the
/// lengths fill the stack, they stay. Where they are too long, or fill the
/// stack though an element has none, all elements share the stack evenly.
/// Where there is room left, the elements without a length share it evenly;
/// if there is none, all elements grow by an even share of it.
pub open spec fn stack_size(sizes: Seq<Option<u32>>, allowance: u32, i: int) -> Option<u32> {
    let n = count_in_u32(sizes.len());
    let total = sizes_total(sizes, sizes.len() as int);
    let free = sizes_free(sizes, sizes.len() as int);
    if n == 0 {
        sizes[i]
    } else if total == allowance && free == 0 {
        sizes[i]
    } else if total >= allowance {
        Some(share(count_in_u32(i as nat), allowance, n))
    } else if free == 0 {
        match sizes[i] {
            Some(size) => Some(
                spec_saturating_add(
                    size as int,
                    share(count_in_u32(i as nat), (allowance - total) as u32, n) as int,
                ),
            ),
            None => None,
        }
    } else {
        match sizes[i] {
            Some(size) => Some(size),
            None => Some(
                share(
                    count_in_u32(sizes_free(sizes, i)),
                    (allowance - total) as u32,
                    count_in_u32(free),
                ),
            ),
        }
    }
}

/// Elements in a row or a column that share the length of the stack.
pub struct StackedLayout {
    elements: Vec<StackedElement>,
    direction: LayoutDirection,
    dividers: bool,
}

impl StackedLayout {
    /// The elements of the stack.
    pub closed spec fn spec_elements(self) -> Seq<StackedElement> {
        self.elements@
    }

    /// The direction of the stack.
    pub closed spec fn spec_direction(self) -> LayoutDirection {
        self.direction
    }

    /// Whether a divider is drawn between two elements.
    pub closed spec fn spec_dividers(self) -> bool {
        self.dividers
    }

    /// A stack without elements.
    pub fn empty(direction: LayoutDirection) -> (stack: Self)
        ensures
            stack.spec_elements().len() == 0,
            stack.spec_direction() == direction,
            !stack.spec_dividers(),
    {
        Self::from_vec(direction, Vec::new())
    }

    /// A stack of the given elements, without dividers.
    pub fn from_vec(direction: LayoutDirection, elements: Vec<StackedElement>) -> (stack: Self)
        ensures
            stack.spec_elements() == elements@,
            stack.spec_direction() == direction,
            !stack.spec_dividers(),
    {
        Self { elements, direction, dividers: false }
    }

    /// A row of the given elements.
    pub fn horizontal(elements: Vec<StackedElement>) -> (stack: Self)
        ensures
            stack.spec_elements() == elements@,
            stack.spec_direction() == LayoutDirection::Horizontal,
            !stack.spec_dividers(),
    {
        Self::from_vec(LayoutDirection::Horizontal, elements)
    }

    /// A column of the given elements.
    pub fn vertical(elements: Vec<StackedElement>) -> (stack: Self)
        ensures
            stack.spec_elements() == elements@,
            stack.spec_direction() == LayoutDirection::Vertical,
            !stack.spec_dividers(),
    {
        Self::from_vec(LayoutDirection::Vertical, elements)
    }

    /// The same stack with a divider between each two elements.
    pub fn with_dividers(self) -> (stack: Self)
        ensures
            stack.spec_elements() == self.spec_elements(),
            stack.spec_direction() == self.spec_direction(),
            stack.spec_dividers(),
    {
        Self { dividers: true, ..self }
    }

    /// The lengths of the elements together, as far as they have one, and
    /// the number of elements that have none.
    pub fn scan_sizes(&self) -> (r: (u32, usize))
        ensures
            r.0 == sizes_total(
                stack_sizes(self.spec_elements()),
                self.spec_elements().len() as int,
            ),
            r.1 == sizes_free(stack_sizes(self.spec_elements()), self.spec_elements().len() as int),
    {
        let mut total_size: u32 = 0;
        let mut free: usize = 0;
        let mut i: usize = 0;
        let ghost sizes = stack_sizes(self.elements@);
        while i < self.elements.len()
            invariant
                i <= self.elements@.len(),
                sizes == stack_sizes(self.elements@),
                total_size == sizes_total(sizes, i as int),
                free == sizes_free(sizes, i as int),
                free <= i,
            decreases self.elements@.len() - i,
        {
            match self.elements[i].size {
                Some(size) => {
                    total_size = saturating_add_u32(total_size, size);
                },
                None => {
                    free += 1;
                },
            }
            i += 1;
        }
        (total_size, free)
    }
}

impl Element for StackedLayout {
    /// Gives the elements their lengths along the stack and lays them out
    /// in those lengths and in the greatest size across; takes the greatest
    /// size.
    fn layout(&mut self, constraints: BoxConstraints) -> (size: Size)
        ensures
            size == constraints.max,
            final(self).spec_direction() == old(self).spec_direction(),
            final(self).spec_dividers() == old(self).spec_dividers(),
            final(self).spec_elements().len() == old(self).spec_elements().len(),
            forall|i: int|
                0 <= i < old(self).spec_elements().len() ==> (
                #[trigger] final(self).spec_elements()[i]).size == stack_size(
                    stack_sizes(old(self).spec_elements()),
                    stack_allowance(
                        constraints.max.spec_dir(old(self).spec_direction()),
                        count_in_u32(old(self).spec_elements().len()),
                        old(self).spec_dividers(),
                    ),
                    i,
                ),
    {
        let (total_size, free) = self.scan_sizes();
        let len = self.elements.len();
        let n = count_of(len);
        let free_count = count_of(free);
        let mut size_allowance = *constraints.max.dir(self.direction);
        if self.dividers {
            size_allowance = saturating_sub_u32(size_allowance, saturating_sub_u32(n, 1));
        }
        let ghost sizes = stack_sizes(self.elements@);
        let mut rank: usize = 0;
        let mut i: usize = 0;
        while i < len
            invariant
                len == self.elements@.len(),
                len == old(self).elements@.len(),
                self.direction == old(self).direction,
                self.dividers == old(self).dividers,
                sizes == stack_sizes(old(self).elements@),
                sizes.len() == len,
                n == count_in_u32(len as nat),
                total_size == sizes_total(sizes, len as int),
                free == sizes_free(sizes, len as int),
                free_count == count_in_u32(free as nat),
                i <= len,
                rank == sizes_free(sizes, i as int),
                rank <= i,
                forall|j: int| 0 <= j < i ==> (#[trigger] self.elements@[j]).size == stack_size(sizes, size_allowance, j),
                forall|j: int| i <= j < len ==> (#[trigger] self.elements@[j]).size == sizes[j],
            decreases len - i,
        {
            let current = self.elements[i].size;
            assert(current == sizes[i as int]);
            let index = count_of(i);
            let planned: Option<u32> = if n == 0 {
                None
            } else if total_size == size_allowance && free == 0 {
                // The lengths fill the stack.
                current
            } else if total_size >= size_allowance {
                // Too long, or full with elements left over: all share anew.
                Some(share_of(index, size_allowance, n))
            } else if free == 0 {
                // Room is left: every element grows by an even share of it.
                match current {
                    Some(size) => Some(
                        saturating_add_u32(size, share_of(index, size_allowance - total_size, n)),
                    ),
                    None => None,
                }
            } else {
                // Room is left for the elements that have no length yet.
                match current {
                    Some(_) => None,
                    None => Some(
                        share_of(count_of(rank), size_allowance - total_size, free_count),
                    ),
                }
            };
            if current.is_none() {
                rank += 1;
            }
            match planned {
                Some(s) => {
                    self.elements[i].size = Some(s);
                    self.elements[i].element.layout(
                        BoxConstraints::exact(constraints.max.with_dir(self.direction, s)),
                    );
                },
                None => {},
            }
            i += 1;
        }
        constraints.max
    }

    /// Hands the event to the elements, each in its part of the stack, one
    /// after the other until one of them uses it up; draws the dividers
    /// between them. The lengths of the elements stay as they are.
    fn handle_event(&mut self, ctx: &mut UiContext, event: Event, bounds: IRect) -> (r:
        EventResult)
        ensures
            final(self).spec_direction() == old(self).spec_direction(),
            final(self).spec_dividers() == old(self).spec_dividers(),
            final(self).spec_elements().len() == old(self).spec_elements().len(),
            stack_sizes(final(self).spec_elements()) == stack_sizes(old(self).spec_elements()),
            handed_along(
                stack_places(
                    stack_sizes(old(self).spec_elements()),
                    old(self).spec_direction(),
                    old(self).spec_dividers(),
                    bounds,
                ),
                event,
                r,
            ),
    {
        let mut offset: u32 = 0;
        let len = self.elements.len();
        let ghost sizes = stack_sizes(self.elements@);
        let ghost places = stack_places(sizes, self.direction, self.dividers, bounds);
        let div_voxel = Voxel2::new(
            match self.direction {
                LayoutDirection::Horizontal => 0x266,
                LayoutDirection::Vertical => 0x265,
            },
        );
        let mut i: usize = 0;
        while i < len
            invariant
                len == self.elements@.len(),
                len == old(self).elements@.len(),
                self.direction == old(self).direction,
                self.dividers == old(self).dividers,
                i <= len,
                sizes == stack_sizes(old(self).elements@),
                stack_sizes(self.elements@) == sizes,
                places == stack_places(sizes, self.direction, self.dividers, bounds),
                offset == stack_end(sizes, self.dividers, i as int),
                passed_until(places, event, i as int),
            decreases len - i,
        {
            if self.dividers && i > 0 {
                let div_bounds = slice_from(bounds, self.direction, offset, 1);
                match event {
                    Event::Draw => {
                        fill_rect(&mut ctx.batch, &div_voxel, div_bounds);
                    },
                    _ => {},
                }
                offset = saturating_add_u32(offset, 1);
            }
            assert(self.elements@[i as int].size == sizes[i as int]);
            match self.elements[i].size {
                Some(element_size) => {
                    let place = slice_from(bounds, self.direction, offset, element_size);
                    assert(places[i as int] == Some(place));
                    let answer = self.elements[i].element.handle_event(ctx, event, place);
                    assert(stack_sizes(self.elements@) =~= sizes);
                    match answer {
                        Err(stop) => {
                            return Err(stop);
                        },
                        Ok(_) => {},
                    }
                    offset = saturating_add_u32(offset, element_size);
                },
                None => {},
            }
            i += 1;
        }
        Ok(Continue)
    }
}

/// An element of a flexible row or column: with a share in the room that
/// is left over, or, with no share, of the length that it chooses.
pub struct FlexElement {
    pub element: Box<dyn Element>,
    pub flex: u32,
    pub size: Option<u32>,
}

impl FlexElement {
    /// An element that takes `flex` shares of the room that is left over.
    pub fn flex(element: Box<dyn Element>, flex: u32) -> (e: Self)
        ensures
            e == (FlexElement { element, flex, size: None }),
    {
        Self { element, flex, size: None }
    }

    /// An element that takes the length that it chooses.
    pub fn fixed(element: Box<dyn Element>) -> (e: Self)
        ensures
            e == (FlexElement { element, flex: 0, size: None }),
    {
        Self { element, flex: 0, size: None }
    }
}

/// The shares of the first `k` elements together, stopping at the largest
/// number.
pub open spec fn flex_total(elements: Seq<FlexElement>, k: int) -> u32
    decreases k,
{
    if k <= 0 {
        0
    } else {
        spec_saturating_add(flex_total(elements, k - 1) as int, elements[k - 1].flex as int)
    }
}

/// The length that is left of `length` behind those of the first `k`
/// elements that have no share, each with the length that it took.
pub open spec fn flex_room(elements: Seq<FlexElement>, k: int, length: u32) -> u32
    decreases k,
{
    if k <= 0 {
        length
    } else {
        let before = flex_room(elements, k - 1, length);
        match elements[k - 1].size {
            Some(size) => if elements[k - 1].flex == 0 {
                spec_saturating_sub(before as int, size as int) as u32
            } else {
                before
            },
            None => before,
        }
    }
}

/// The lengths of the elements of a flexible row or column.
pub open spec fn flex_sizes(elements: Seq<FlexElement>) -> Seq<Option<u32>> {
    Seq::new(elements.len(), |i: int| elements[i].size)
}

/// Elements in a row or a column, some of the length that they choose, the
/// others sharing what is left.
pub struct FlexLayout {
    elements: Vec<FlexElement>,
    direction: LayoutDirection,
}

impl FlexLayout {
    /// The elements.
    pub closed spec fn spec_elements(self) -> Seq<FlexElement> {
        self.elements@
    }

    /// The direction along which the elements lie.
    pub closed spec fn spec_direction(self) -> LayoutDirection {
        self.direction
    }

    /// A flexible row or column without elements.
    pub fn empty(direction: LayoutDirection) -> (flex: Self)
        ensures
            flex.spec_elements().len() == 0,
            flex.spec_direction() == direction,
    {
        Self::from_vec(direction, Vec::new())
    }

    /// A flexible row or column of the given elements.
    pub fn from_vec(direction: LayoutDirection, elements: Vec<FlexElement>) -> (flex: Self)
        ensures
            flex.spec_elements() == elements@,
            flex.spec_direction() == direction,
    {
        Self { elements, direction }
    }

    /// A flexible row of the given elements.
    pub fn horizontal(elements: Vec<FlexElement>) -> (flex: Self)
        ensures
            flex.spec_elements() == elements@,
            flex.spec_direction() == LayoutDirection::Horizontal,
    {
        Self::from_vec(LayoutDirection::Horizontal, elements)
    }

    /// A flexible column of the given elements.
    pub fn vertical(elements: Vec<FlexElement>) -> (flex: Self)
        ensures
            flex.spec_elements() == elements@,
            flex.spec_direction() == LayoutDirection::Vertical,
    {
        Self::from_vec(LayoutDirection::Vertical, elements)
    }
}

impl Element for FlexLayout {
    /// Lays out the elements without a share first, each in the room that
    /// those before it left; then deals the room that is left out among the
    /// others by their shares and lays them out in it. Along its direction
    /// the layout takes the greatest length if an element has a share, else
    /// the length that its elements took; across, the greatest extent of an
    /// element without a share.
    fn layout(&mut self, constraints: BoxConstraints) -> (size: Size)
        ensures
            final(self).spec_direction() == old(self).spec_direction(),
            final(self).spec_elements().len() == old(self).spec_elements().len(),
            forall|i: int|
                0 <= i < final(self).spec_elements().len() ==> (
                #[trigger] final(self).spec_elements()[i]).flex == old(self).spec_elements()[i].flex
                    && final(self).spec_elements()[i].size is Some,
            forall|i: int|
                0 <= i < final(self).spec_elements().len() && final(self).spec_elements()[i].flex > 0
                    ==> (#[trigger] final(self).spec_elements()[i]).size == Some(
                    spec_spread_flex(
                        flex_total(final(self).spec_elements(), i) as int,
                        spec_saturating_add(
                            flex_total(final(self).spec_elements(), i) as int,
                            final(self).spec_elements()[i].flex as int,
                        ) as int,
                        flex_room(
                            final(self).spec_elements(),
                            final(self).spec_elements().len() as int,
                            constraints.max.spec_dir(old(self).spec_direction()),
                        ) as int,
                        flex_total(
                            final(self).spec_elements(),
                            final(self).spec_elements().len() as int,
                        ) as int,
                    ) as u32,
                ),
            size.spec_dir(old(self).spec_direction()) == if flex_total(
                final(self).spec_elements(),
                final(self).spec_elements().len() as int,
            ) > 0 {
                constraints.max.spec_dir(old(self).spec_direction()) as int
            } else {
                constraints.max.spec_dir(old(self).spec_direction()) - flex_room(
                    final(self).spec_elements(),
                    final(self).spec_elements().len() as int,
                    constraints.max.spec_dir(old(self).spec_direction()),
                )
            },
    {
        let len = self.elements.len();
        let direction = self.direction;
        let length = *constraints.max.dir(direction);
        let mut free = constraints.max;
        let mut max_other: u32 = 0;
        let mut total_flex: u32 = 0;
        let mut i: usize = 0;
        // First the elements that choose their length.
        while i < len
            invariant
                len == self.elements@.len(),
                len == old(self).elements@.len(),
                self.direction == old(self).direction,
                direction == self.direction,
                length == constraints.max.spec_dir(direction),
                i <= len,
                forall|j: int| 0 <= j < len ==> (#[trigger] self.elements@[j]).flex == old(self).elements@[j].flex,
                forall|j: int|
                    0 <= j < i && self.elements@[j].flex == 0 ==> (#[trigger] self.elements@[j]).size is Some,
                forall|j: int|
                    0 <= j < len && self.elements@[j].flex > 0 ==> (#[trigger] self.elements@[j]).size
                        == old(self).elements@[j].size,
                free.spec_dir(direction) == flex_room(self.elements@, i as int, length),
                free.spec_dir(direction) <= length,
                free.spec_dir(direction.spec_other()) == constraints.max.spec_dir(
                    direction.spec_other(),
                ),
                total_flex == flex_total(self.elements@, i as int),
            decreases len - i,
        {
            let ghost before = self.elements@;
            if self.elements[i].flex == 0 {
                let element_size = self.elements[i].element.layout(
                    BoxConstraints::new(Size::zero(), free),
                );
                let taken = *element_size.dir(direction);
                free = free.shrink(Size::zero().with_dir(direction, taken));
                self.elements[i].size = Some(taken);
                max_other = max_u32(max_other, *element_size.dir(direction.other()));
            }
            total_flex = saturating_add_u32(total_flex, self.elements[i].flex);
            proof {
                lemma_flex_prefix(before, self.elements@, i as int, length);
            }
            i += 1;
        }
        let room = *free.dir(direction);
        // Then the elements that share what is left.
        let mut start_flex: u32 = 0;
        let mut k: usize = 0;
        let ghost fixed = self.elements@;
        while k < len
            invariant
                len == self.elements@.len(),
                len == old(self).elements@.len(),
                self.direction == old(self).direction,
                direction == self.direction,
                k <= len,
                forall|j: int| 0 <= j < len ==> (#[trigger] self.elements@[j]).flex == fixed[j].flex,
                forall|j: int| 0 <= j < len ==> (#[trigger] fixed[j]).flex == old(self).elements@[j].flex,
                forall|j: int|
                    0 <= j < len && self.elements@[j].flex == 0 ==> (#[trigger] self.elements@[j]).size
                        == fixed[j].size && fixed[j].size is Some,
                total_flex == flex_total(fixed, len as int),
                start_flex == flex_total(fixed, k as int),
                room == flex_room(fixed, len as int, length),
                free.spec_dir(direction) == room,
                forall|j: int|
                    0 <= j < k && self.elements@[j].flex > 0 ==> (#[trigger] self.elements@[j]).size
                        == Some(
                        spec_spread_flex(
                            flex_total(fixed, j) as int,
                            spec_saturating_add(flex_total(fixed, j) as int, fixed[j].flex as int) as int,
                            room as int,
                            total_flex as int,
                        ) as u32,
                    ),
            decreases len - k,
        {
            let flex = self.elements[k].flex;
            let end_flex = saturating_add_u32(start_flex, flex);
            if flex > 0 {
                proof {
                    lemma_flex_total_grows(fixed, k as int + 1, len as int);
                    lemma_flex_share_fits(
                        start_flex as int,
                        end_flex as int,
                        room as int,
                        total_flex as int,
                    );
                }
                let element_size = spread_flex(start_flex..end_flex, room, total_flex);
                self.elements[k].element.layout(
                    BoxConstraints::exact(free.with_dir(direction, element_size)),
                );
                self.elements[k].size = Some(element_size);
            }
            start_flex = end_flex;
            k += 1;
        }
        proof {
            lemma_flex_same(fixed, self.elements@, len as int, length);
        }
        let along = if total_flex > 0 {
            length
        } else {
            length - room
        };
        Size::zero().with_dir(direction, along).with_dir(direction.other(), max_other)
    }

    /// Hands the event to the elements, each in its part of the row or
    /// column, one after the other until one of them uses it up. The
    /// elements lie one behind the other with nothing between them, and
    /// their shares and lengths stay as they are.
    fn handle_event(&mut self, ctx: &mut UiContext, event: Event, bounds: IRect) -> (r:
        EventResult)
        ensures
            final(self).spec_direction() == old(self).spec_direction(),
            final(self).spec_elements().len() == old(self).spec_elements().len(),
            flex_sizes(final(self).spec_elements()) == flex_sizes(old(self).spec_elements()),
            forall|i: int|
                0 <= i < old(self).spec_elements().len() ==> (
                #[trigger] final(self).spec_elements()[i]).flex == old(self).spec_elements()[i].flex,
            handed_along(
                stack_places(
                    flex_sizes(old(self).spec_elements()),
                    old(self).spec_direction(),
                    false,
                    bounds,
                ),
                event,
                r,
            ),
    {
        let mut offset: u32 = 0;
        let len = self.elements.len();
        let ghost sizes = flex_sizes(self.elements@);
        let ghost places = stack_places(sizes, self.direction, false, bounds);
        let mut i: usize = 0;
        while i < len
            invariant
                len == self.elements@.len(),
                len == old(self).elements@.len(),
                self.direction == old(self).direction,
                i <= len,
                sizes == flex_sizes(old(self).elements@),
                flex_sizes(self.elements@) == sizes,
                forall|j: int| 0 <= j < len ==> (#[trigger] self.elements@[j]).flex == old(self).elements@[j].flex,
                places == stack_places(sizes, self.direction, false, bounds),
                offset == stack_end(sizes, false, i as int),
                passed_until(places, event, i as int),
            decreases len - i,
        {
            assert(self.elements@[i as int].size == sizes[i as int]);
            match self.elements[i].size {
                Some(element_size) => {
                    let place = slice_from(bounds, self.direction, offset, element_size);
                    assert(places[i as int] == Some(place));
                    let answer = self.elements[i].element.handle_event(ctx, event, place);
                    assert(flex_sizes(self.elements@) =~= sizes);
                    match answer {
                        Err(stop) => {
                            return Err(stop);
                        },
                        Ok(_) => {},
                    }
                    offset = saturating_add_u32(offset, element_size);
                },
                None => {},
            }
            i += 1;
        }
        Ok(Continue)
    }
}

/// The shares and the room of the first elements depend on those elements
/// only.
proof fn lemma_flex_prefix(a: Seq<FlexElement>, b: Seq<FlexElement>, k: int, length: u32)
    requires
        0 <= k <= a.len(),
        k <= b.len(),
        forall|j: int| 0 <= j < k ==> a[j].flex == b[j].flex && a[j].size == b[j].size,
    ensures
        flex_total(a, k) == flex_total(b, k),
        flex_room(a, k, length) == flex_room(b, k, length),
    decreases k,
{
    if k > 0 {
        lemma_flex_prefix(a, b, k - 1, length);
    }
}

/// The shares and the room stay the same where only elements with a share
/// get a new length.
proof fn lemma_flex_same(a: Seq<FlexElement>, b: Seq<FlexElement>, k: int, length: u32)
    requires
        0 <= k <= a.len(),
        k <= b.len(),
        forall|j: int| 0 <= j < k ==> a[j].flex == b[j].flex,
        forall|j: int| 0 <= j < k && a[j].flex == 0 ==> a[j].size == b[j].size,
    ensures
        flex_total(a, k) == flex_total(b, k),
        flex_room(a, k, length) == flex_room(b, k, length),
        forall|j: int| 0 <= j <= k ==> flex_total(a, j) == flex_total(b, j),
    decreases k,
{
    if k > 0 {
        lemma_flex_same(a, b, k - 1, length);
    }
}

/// The shares of more elements are no fewer.
proof fn lemma_flex_total_grows(elements: Seq<FlexElement>, j: int, k: int)
    requires
        0 <= j <= k,
    ensures
        flex_total(elements, j) <= flex_total(elements, k),
    decreases k - j,
{
    if j < k {
        lemma_flex_total_grows(elements, j, k - 1);
    }
}

/// The lengths of the first `k` elements together, as far as they have one.
pub open spec fn lengths_sum(sizes: Seq<Option<u32>>, k: int) -> int
    decreases k,
{
    if k <= 0 {
        0
    } else {
        lengths_sum(sizes, k - 1) + match sizes[k - 1] {
            Some(size) => size as int,
            None => 0,
        }
    }
}

/// The lengths that the layout of a stack gives to the first `k` elements,
/// together.
pub open spec fn laid_out_sum(sizes: Seq<Option<u32>>, allowance: u32, k: int) -> int
    decreases k,
{
    if k <= 0 {
        0
    } else {
        laid_out_sum(sizes, allowance, k - 1) + match stack_size(sizes, allowance, k - 1) {
            Some(size) => size as int,
            None => 0,
        }
    }
}

/// A share is the share that `spread` deals, and no more than the total.
proof fn lemma_share(i: u32, total: u32, n: u32)
    requires
        n > 0,
    ensures
        share(i, total, n) == spec_spread(i as int, total as int, n as int),
        share(i, total, n) <= total,
{
    lemma_fundamental_div_mod(total as int, n as int);
    lemma_mod_bound(total as int, n as int);
    assert(0 <= total / n + (if i < total % n { 1int } else { 0int }) <= total) by (nonlinear_arith)
        requires
            total == n * (total / n) + total % n,
            0 <= total % n < n,
            0 <= total,
            n > 0,
    {
        assert(total / n >= 0);
    }
}

/// Lengths that fit a number together are added up without loss.
proof fn lemma_total_is_sum(sizes: Seq<Option<u32>>, k: int)
    requires
        0 <= k <= sizes.len(),
        lengths_sum(sizes, k) <= u32::MAX,
    ensures
        sizes_total(sizes, k) == lengths_sum(sizes, k),
        forall|j: int| 0 <= j < k ==> (#[trigger] sizes[j] matches Some(size) ==> size <= lengths_sum(sizes, k)),
    decreases k,
{
    if k > 0 {
        lemma_lengths_sum_nonnegative(sizes, k - 1);
        lemma_total_is_sum(sizes, k - 1);
    }
}

/// A sum of lengths is not negative.
proof fn lemma_lengths_sum_nonnegative(sizes: Seq<Option<u32>>, k: int)
    ensures
        lengths_sum(sizes, k) >= 0,
    decreases k,
{
    if k > 0 {
        lemma_lengths_sum_nonnegative(sizes, k - 1);
    }
}

/// No more elements are without a length than there are elements.
proof fn lemma_free_bound(sizes: Seq<Option<u32>>, k: int)
    requires
        0 <= k,
    ensures
        sizes_free(sizes, k) <= k,
        forall|j: int| 0 <= j <= k ==> sizes_free(sizes, j) <= sizes_free(sizes, k),
        sizes_free(sizes, k) == 0 ==> forall|j: int| 0 <= j < k ==> (#[trigger] sizes[j]) is Some,
    decreases k,
{
    if k > 0 {
        lemma_free_bound(sizes, k - 1);
    }
}

/// What the layout of a stack gives to the first `k` elements together, in
/// each of the ways in which it deals the lengths out.
proof fn lemma_laid_out_prefix(sizes: Seq<Option<u32>>, allowance: u32, k: int)
    requires
        0 < sizes.len() < 0x1_0000_0000,
        0 <= k <= sizes.len(),
        lengths_sum(sizes, sizes.len() as int) <= u32::MAX,
    ensures
        ({
            let n = sizes.len() as int;
            let total = lengths_sum(sizes, n);
            let free = sizes_free(sizes, n) as int;
            laid_out_sum(sizes, allowance, k) == if total == allowance && free == 0 {
                lengths_sum(sizes, k)
            } else if total >= allowance {
                spread_sum(k, allowance as int, n)
            } else if free == 0 {
                lengths_sum(sizes, k) + spread_sum(k, allowance - total, n)
            } else {
                lengths_sum(sizes, k) + spread_sum(sizes_free(sizes, k) as int, allowance - total, free)
            }
        }),
    decreases k,
{
    let n = sizes.len() as int;
    lemma_total_is_sum(sizes, n);
    lemma_free_bound(sizes, n);
    let total = lengths_sum(sizes, n);
    let free = sizes_free(sizes, n) as int;
    if k > 0 {
        lemma_laid_out_prefix(sizes, allowance, k - 1);
        let i = k - 1;
        lemma_free_bound(sizes, i);
        assert(count_in_u32(i as nat) == i);
        assert(count_in_u32(sizes.len()) == n);
        assert(count_in_u32(free as nat) == free);
        assert(count_in_u32(sizes_free(sizes, i)) == sizes_free(sizes, i));
        if total == allowance && free == 0 {
        } else if total >= allowance {
            lemma_share(i as u32, allowance, n as u32);
        } else if free == 0 {
            lemma_share(i as u32, (allowance - total) as u32, n as u32);
            assert(sizes[i] is Some);
        } else {
            lemma_share(sizes_free(sizes, i) as u32, (allowance - total) as u32, free as u32);
        }
    }
}

/// The layout of a stack fills the stack: the lengths that it gives to the
/// elements add up to the length that they may take together, whatever
/// lengths they had before.
pub proof fn lemma_stack_fills(sizes: Seq<Option<u32>>, allowance: u32)
    requires
        0 < sizes.len() < 0x1_0000_0000,
        lengths_sum(sizes, sizes.len() as int) <= u32::MAX,
    ensures
        laid_out_sum(sizes, allowance, sizes.len() as int) == allowance,
{
    let n = sizes.len() as int;
    lemma_laid_out_prefix(sizes, allowance, n);
    lemma_free_bound(sizes, n);
    lemma_lengths_sum_nonnegative(sizes, n);
    let total = lengths_sum(sizes, n);
    let free = sizes_free(sizes, n) as int;
    if total == allowance && free == 0 {
    } else if total >= allowance {
        lemma_spread_sums_to_total(allowance as int, n);
    } else if free == 0 {
        lemma_spread_sums_to_total(allowance - total, n);
    } else {
        lemma_spread_sums_to_total(allowance - total, free);
    }
}

} // verus!

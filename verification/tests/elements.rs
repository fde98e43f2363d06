use std::cell::RefCell;
use std::rc::Rc;

use flo_binding::{Binding, Bound, MutableBound};
use katakomb::geometry::point::Point2;
use katakomb::geometry::rect::IRect;
use katakomb::rendering::color::{dark_gray, gray, white, Color};
use katakomb::rendering::font::{glyph_cell, Glyph, KataFontBatch};
use katakomb::rendering::voxel::{Voxel2, Voxel3, VoxelFace, VoxelMirror, VoxelRotation};
use katakomb::ui::{
    center_in, draw_bar, fill_rect, layout_list_elements, list_scroll_max, scaled_round,
    scroll_click, scroll_target, slice_from, BoxConstraints, Centered, Continue, Element,
    ElementExt, Event, EventResult, Filling, FlexElement, FlexLayout, KataText, LayoutDirection,
    List, ListElement, MouseButton, MouseEvent, Padding, Placeholder, PointExt, ScrollBar,
    ScrollClick, Size, StackedElement, StackedLayout, Stop, UiContext, VoxelDisplay, VoxelSource,
};

fn ctx() -> UiContext {
    let mut ctx = UiContext::new(KataFontBatch::new());
    ctx.relayout = false;
    ctx
}

fn places(ctx: &UiContext) -> Vec<(u16, u32, u32)> {
    ctx.batch
        .glyphs()
        .iter()
        .map(|g| (g.voxel.char_offset, g.dest.x, g.dest.y))
        .collect()
}

/// An element that takes a fixed size and records the bounds it is drawn at.
struct Probe {
    size: Size,
    seen: Rc<RefCell<Vec<IRect>>>,
    constraints: Rc<RefCell<Vec<BoxConstraints>>>,
    stop: bool,
}

impl Probe {
    fn make(width: u32, height: u32) -> (Probe, Rc<RefCell<Vec<IRect>>>, Rc<RefCell<Vec<BoxConstraints>>>) {
        let seen = Rc::new(RefCell::new(Vec::new()));
        let constraints = Rc::new(RefCell::new(Vec::new()));
        (
            Probe {
                size: Size::new(width, height),
                seen: seen.clone(),
                constraints: constraints.clone(),
                stop: false,
            },
            seen,
            constraints,
        )
    }

    fn new(width: u32, height: u32) -> (Box<dyn Element>, Rc<RefCell<Vec<IRect>>>, Rc<RefCell<Vec<BoxConstraints>>>) {
        let (probe, seen, constraints) = Probe::make(width, height);
        (Box::new(probe), seen, constraints)
    }
}

impl Element for Probe {
    fn layout(&mut self, constraints: BoxConstraints) -> Size {
        self.constraints.borrow_mut().push(constraints);
        self.size
    }

    fn handle_event(&mut self, _ctx: &mut UiContext, _event: Event, bounds: IRect) -> EventResult {
        self.seen.borrow_mut().push(bounds);
        if self.stop {
            Err(Stop)
        } else {
            Ok(Continue)
        }
    }
}

#[test]
fn events_are_culled_by_bounds() {
    let bounds = IRect::new(2, 2, 3, 3);
    let inside = Event::Mouse { pos: Point2::new(4, 4), e: MouseEvent::WheelUp };
    let outside = Event::Mouse { pos: Point2::new(5, 4), e: MouseEvent::WheelUp };
    assert_eq!(inside.cull(bounds), Some(inside));
    assert_eq!(outside.cull(bounds), None);
    assert_eq!(Event::Draw.cull(IRect::zero()), Some(Event::Draw));
    // A drag counts where it began.
    let drag = Event::Mouse {
        pos: Point2::new(50, 50),
        e: MouseEvent::ButtonDrag { button: MouseButton::Left, start_pos: Point2::new(2, 2) },
    };
    assert_eq!(drag.cull(bounds), Some(drag));
    let drag_out = Event::Mouse {
        pos: Point2::new(3, 3),
        e: MouseEvent::ButtonDrag { button: MouseButton::Left, start_pos: Point2::new(1, 2) },
    };
    assert_eq!(drag_out.cull(bounds), None);
}

#[test]
fn context_starts_in_need_of_layout() {
    let ctx = UiContext::new(KataFontBatch::new());
    assert!(ctx.relayout);
    assert!(ctx.batch.glyphs().is_empty());
}

#[test]
fn batch_collects_glyphs() {
    let mut batch = KataFontBatch::new();
    let v = Voxel2::new(7);
    batch.add(&v, Point2::new(1, 2));
    batch.add(&Voxel2::new(8), Point2::new(3, 4));
    assert_eq!(
        batch.glyphs().clone(),
        vec![
            Glyph { voxel: v, dest: Point2::new(1, 2) },
            Glyph { voxel: Voxel2::new(8), dest: Point2::new(3, 4) },
        ]
    );
    batch.clear();
    assert!(batch.glyphs().is_empty());
    assert_eq!(glyph_cell(0x2B5, 32), (21, 21));
    assert_eq!(glyph_cell(31, 32), (31, 0));
    assert_eq!(glyph_cell(32, 32), (0, 1));
}

#[test]
fn fill_rect_goes_row_by_row() {
    let mut batch = KataFontBatch::new();
    fill_rect(&mut batch, &Voxel2::new(5), IRect::new(10, 20, 3, 2));
    let got: Vec<(u32, u32)> = batch.glyphs().iter().map(|g| (g.dest.x, g.dest.y)).collect();
    assert_eq!(got, vec![(10, 20), (11, 20), (12, 20), (10, 21), (11, 21), (12, 21)]);
    let mut batch = KataFontBatch::new();
    fill_rect(&mut batch, &Voxel2::new(5), IRect::new(10, 20, 0, 5));
    assert!(batch.glyphs().is_empty());
    // Coordinates stop at the largest number.
    let mut batch = KataFontBatch::new();
    fill_rect(&mut batch, &Voxel2::new(5), IRect::new(u32::MAX - 1, 0, 3, 1));
    let got: Vec<(u32, u32)> = batch.glyphs().iter().map(|g| (g.dest.x, g.dest.y)).collect();
    assert_eq!(got, vec![(u32::MAX - 1, 0), (u32::MAX, 0), (u32::MAX, 0)]);
}

#[test]
fn text_from_str() {
    let text = KataText::from_str("Hi!");
    assert_eq!(
        text.voxels,
        vec![Voxel2::new(72), Voxel2::new(105), Voxel2::new(33)]
    );
    let red = Color::new(255, 0, 0);
    let text = KataText::from_colored_str("a\u{e9}b", red);
    assert_eq!(
        text.voxels,
        vec![
            Voxel2::new(97).foreground(red),
            Voxel2::new(0x082D).foreground(red),
            Voxel2::new(98).foreground(red),
        ]
    );
    assert!(KataText::from_str("").voxels.is_empty());
    let text = KataText::from_voxels(vec![Voxel2::new(1)]);
    assert_eq!(text.voxels, vec![Voxel2::new(1)]);
}

#[test]
fn text_layout_breaks_lines() {
    let mut text = KataText::from_str("hello world");
    let c = |min_w, max_w| BoxConstraints::new(Size::new(min_w, 0), Size::new(max_w, 100));
    assert_eq!(text.layout(c(0, 4)), Size::new(4, 3));
    assert_eq!(text.layout(c(0, 11)), Size::new(11, 1));
    assert_eq!(text.layout(c(0, 20)), Size::new(11, 1));
    assert_eq!(text.layout(c(15, 20)), Size::new(15, 1));
    assert_eq!(text.layout(c(0, 10)), Size::new(10, 2));
    assert_eq!(text.layout(c(0, 0)), Size::new(0, 0));
    assert_eq!(text.layout(c(0, 1)), Size::new(1, 11));
    let mut empty = KataText::from_str("");
    assert_eq!(empty.layout(c(0, 5)), Size::new(0, 0));
}

#[test]
fn text_draws_line_after_line() {
    let mut text = KataText::from_str("abcde");
    let mut ctx = ctx();
    assert!(text.handle_event(&mut ctx, Event::Draw, IRect::new(3, 7, 2, 9)).is_ok());
    assert_eq!(
        places(&ctx),
        vec![(97, 3, 7), (98, 4, 7), (99, 3, 8), (100, 4, 8), (101, 3, 9)]
    );
    let mut ctx2 = self::ctx();
    assert!(text.handle_event(&mut ctx2, Event::Draw, IRect::new(3, 7, 0, 9)).is_ok());
    assert!(places(&ctx2).is_empty());
    let click = Event::Mouse { pos: Point2::new(3, 7), e: MouseEvent::WheelUp };
    assert!(text.handle_event(&mut ctx2, click, IRect::new(3, 7, 2, 9)).is_ok());
    assert!(places(&ctx2).is_empty());
}

#[test]
fn padding_moves_and_narrows() {
    let (probe, seen, constraints) = Probe::make(3, 3);
    let mut padded = Padding::new(probe, 1, 2, 3, 4);
    let c = BoxConstraints::new(Size::new(5, 5), Size::new(20, 10));
    assert_eq!(padded.layout(c), Size::new(3, 3));
    assert_eq!(
        constraints.borrow().clone(),
        vec![BoxConstraints::new(Size::new(0, 1), Size::new(14, 6))]
    );
    assert_eq!(padded.inner_constraints(c), BoxConstraints::new(Size::new(0, 1), Size::new(14, 6)));
    let mut ctx = ctx();
    assert!(padded.handle_event(&mut ctx, Event::Draw, IRect::new(10, 10, 20, 3)).is_ok());
    assert_eq!(seen.borrow().clone(), vec![IRect::new(14, 11, 14, 0)]);
    assert_eq!(padded.inner_bounds(IRect::new(0, 0, 5, 50)), IRect::new(4, 1, 0, 46));
}

#[test]
fn centered_puts_the_element_in_the_middle() {
    let (probe, seen, constraints) = Probe::make(4, 2);
    let mut centered = Centered::new(probe);
    let mut ctx = ctx();
    // Before the first layout there is nothing to hand the event to.
    assert!(centered.handle_event(&mut ctx, Event::Draw, IRect::new(0, 0, 10, 10)).is_ok());
    assert!(seen.borrow().is_empty());
    let c = BoxConstraints::new(Size::new(5, 5), Size::new(20, 10));
    assert_eq!(centered.layout(c), Size::new(20, 10));
    assert_eq!(
        constraints.borrow().clone(),
        vec![BoxConstraints::new(Size::new(0, 0), Size::new(20, 10))]
    );
    assert!(centered.handle_event(&mut ctx, Event::Draw, IRect::new(100, 200, 20, 10)).is_ok());
    assert_eq!(seen.borrow().clone(), vec![IRect::new(108, 204, 4, 2)]);
    assert_eq!(center_in(IRect::new(0, 0, 3, 3), Size::new(10, 2)), IRect::new(0, 0, 10, 2));
    assert_eq!(center_in(IRect::new(5, 5, 9, 4), Size::new(2, 1)), IRect::new(8, 6, 2, 1));
}

#[test]
fn voxel_display_shows_its_source() {
    let mut display = VoxelDisplay::new(Voxel2::new(42));
    let c = BoxConstraints::new(Size::new(0, 3), Size::new(20, 10));
    assert_eq!(display.layout(c), Size::new(1, 3));
    let mut ctx = ctx();
    assert!(display.handle_event(&mut ctx, Event::Draw, IRect::new(7, 8, 5, 5)).is_ok());
    assert_eq!(places(&ctx), vec![(42, 7, 8)]);
    let click = Event::Mouse { pos: Point2::new(7, 8), e: MouseEvent::WheelDown };
    assert!(display.handle_event(&mut ctx, click, IRect::new(7, 8, 5, 5)).is_ok());
    assert_eq!(places(&ctx).len(), 1);
}

#[test]
fn placeholder_and_filling_fill_their_bounds() {
    let mut placeholder = Placeholder::new(Voxel2::new(9), |c: BoxConstraints| c.constrain(Size::new(1, 1)));
    let c = BoxConstraints::new(Size::new(2, 0), Size::new(20, 10));
    assert_eq!(placeholder.layout(c), Size::new(2, 1));
    let mut ctx = ctx();
    assert!(placeholder.handle_event(&mut ctx, Event::Draw, IRect::new(1, 1, 2, 2)).is_ok());
    assert_eq!(places(&ctx), vec![(9, 1, 1), (9, 2, 1), (9, 1, 2), (9, 2, 2)]);

    let mut filling = Filling::new(Voxel2::new(3));
    assert_eq!(filling.layout(c), Size::new(20, 10));
    let mut ctx = self::ctx();
    assert!(filling.handle_event(&mut ctx, Event::Draw, IRect::new(0, 5, 2, 1)).is_ok());
    assert_eq!(places(&ctx), vec![(3, 0, 5), (3, 1, 5)]);
    let mut blank = Filling::blank();
    let mut ctx = self::ctx();
    assert!(blank.handle_event(&mut ctx, Event::Draw, IRect::new(0, 0, 1, 1)).is_ok());
    assert_eq!(ctx.batch.glyphs()[0].voxel, Voxel2::default());
    let click = Event::Mouse { pos: Point2::new(0, 0), e: MouseEvent::WheelDown };
    assert!(blank.handle_event(&mut ctx, click, IRect::new(0, 0, 1, 1)).is_ok());
    assert_eq!(ctx.batch.glyphs().len(), 1);
}

#[test]
fn handler_sees_events_first() {
    let log = Rc::new(RefCell::new(Vec::new()));
    let log2 = log.clone();
    let mut with = Filling::new(Voxel2::new(3)).with_events(
        move |_element: &Filling, ctx: &mut UiContext, event: Event, _bounds: IRect| {
            log2.borrow_mut().push(ctx.batch.glyphs().len());
            match event {
                Event::Mouse { .. } => Err(Stop),
                Event::Draw => Ok(Continue),
            }
        },
    );
    let c = BoxConstraints::exact(Size::new(4, 4));
    assert_eq!(with.layout(c), Size::new(4, 4));
    let mut ctx = ctx();
    assert!(with.handle_event(&mut ctx, Event::Draw, IRect::new(0, 0, 2, 1)).is_ok());
    assert_eq!(ctx.batch.glyphs().len(), 2);
    let click = Event::Mouse { pos: Point2::new(0, 0), e: MouseEvent::WheelDown };
    assert!(with.handle_event(&mut ctx, click, IRect::new(0, 0, 2, 1)).is_err());
    assert_eq!(log.borrow().clone(), vec![0, 2]);
    let _inner: &Filling = with.element();
}

#[test]
fn rounding_of_scaled_positions() {
    assert_eq!(scaled_round(1, 2, 5), 3);
    assert_eq!(scaled_round(1, 4, 5), 1);
    assert_eq!(scaled_round(3, 4, 5), 4);
    assert_eq!(scaled_round(0, 4, 5), 0);
    assert_eq!(scaled_round(4, 4, 5), 5);
    assert_eq!(scaled_round(1, 3, 1), 0);
    assert_eq!(scaled_round(2, 3, 1), 1);
    assert_eq!(scaled_round(0, 0, 5), 0);
    assert_eq!(scaled_round(3, 0, 0), 0);
    assert_eq!(scaled_round(3, 0, 5), u32::MAX);
    assert_eq!(scaled_round(u32::MAX, 1, u32::MAX), u32::MAX);
    assert_eq!(scaled_round(u32::MAX, u32::MAX, 7), 7);
}

#[test]
fn scroll_decisions() {
    assert_eq!(scroll_target(3, 3, 10), None);
    assert_eq!(scroll_target(3, 4, 10), Some(4));
    assert_eq!(scroll_target(3, 40, 10), Some(10));
    assert_eq!(scroll_click(0, 20, 5, 18, 9), ScrollClick::Up);
    assert_eq!(scroll_click(19, 20, 5, 18, 9), ScrollClick::Down);
    assert_eq!(scroll_click(5, 20, 5, 18, 9), ScrollClick::Stay);
    // Tile 10 of the bar: 9 of 17 steps along, of 9 positions: 4.76.
    assert_eq!(scroll_click(10, 20, 5, 18, 9), ScrollClick::To(5));
    assert_eq!(scroll_click(1, 20, 5, 18, 9), ScrollClick::To(0));
    assert_eq!(scroll_click(18, 20, 5, 18, 9), ScrollClick::To(9));
}

#[test]
fn scroll_bar_scrolls() {
    let pos = flo_binding::bind(2u32);
    let max = flo_binding::bind(5u32);
    let mut bar = ScrollBar::new(pos.clone(), max.clone(), LayoutDirection::Vertical);
    let mut ctx = ctx();
    bar.scroll_down(&mut ctx);
    assert_eq!(flo_binding::Bound::get(&pos), 3);
    assert!(ctx.relayout);
    ctx.relayout = false;
    bar.scroll_to(&mut ctx, 3);
    assert!(!ctx.relayout);
    bar.scroll_to(&mut ctx, 99);
    assert_eq!(flo_binding::Bound::get(&pos), 5);
    bar.scroll_up(&mut ctx);
    assert_eq!(flo_binding::Bound::get(&pos), 4);
    flo_binding::MutableBound::set(&pos, 0);
    ctx.relayout = false;
    bar.scroll_up(&mut ctx);
    assert_eq!(flo_binding::Bound::get(&pos), 0);
    assert!(!ctx.relayout);

    let c = BoxConstraints::new(Size::new(0, 0), Size::new(7, 30));
    assert_eq!(bar.layout(c), Size::new(1, 30));
    let mut across = ScrollBar::new(pos.clone(), max.clone(), LayoutDirection::Horizontal);
    assert_eq!(across.layout(c), Size::new(7, 1));
    assert_eq!(bar.bar_bounds(IRect::new(4, 4, 1, 10)), IRect::new(4, 5, 1, 8));
    assert_eq!(across.bar_bounds(IRect::new(4, 4, 10, 1)), IRect::new(5, 4, 8, 1));
}

#[test]
fn scroll_bar_handles_the_mouse() {
    let pos = flo_binding::bind(2u32);
    let max = flo_binding::bind(10u32);
    let mut bar = ScrollBar::new(pos.clone(), max.clone(), LayoutDirection::Vertical);
    let bounds = IRect::new(0, 0, 1, 12);
    let mut ctx = ctx();
    let at = |y: u32, e: MouseEvent| Event::Mouse { pos: Point2::new(0, y), e };
    assert!(bar.handle_event(&mut ctx, at(3, MouseEvent::WheelDown), bounds).is_err());
    assert_eq!(flo_binding::Bound::get(&pos), 3);
    assert!(bar.handle_event(&mut ctx, at(3, MouseEvent::WheelUp), bounds).is_err());
    assert_eq!(flo_binding::Bound::get(&pos), 2);
    // Outside the bar nothing happens.
    assert!(bar.handle_event(&mut ctx, at(12, MouseEvent::WheelUp), bounds).is_ok());
    assert_eq!(flo_binding::Bound::get(&pos), 2);
    let left = MouseEvent::ButtonDown { button: MouseButton::Left };
    assert!(bar.handle_event(&mut ctx, at(0, left), bounds).is_err());
    assert_eq!(flo_binding::Bound::get(&pos), 1);
    assert!(bar.handle_event(&mut ctx, at(11, left), bounds).is_err());
    assert_eq!(flo_binding::Bound::get(&pos), 2);
    // Tile 6: 5 of 9 steps along the bar, of 10 positions: 5.56.
    assert!(bar.handle_event(&mut ctx, at(6, left), bounds).is_err());
    assert_eq!(flo_binding::Bound::get(&pos), 6);
    let right = MouseEvent::ButtonDown { button: MouseButton::Right };
    assert!(bar.handle_event(&mut ctx, at(3, right), bounds).is_ok());
    assert_eq!(flo_binding::Bound::get(&pos), 6);
    let up = MouseEvent::ButtonUp { button: MouseButton::Left };
    assert!(bar.handle_event(&mut ctx, at(3, up), bounds).is_ok());
    // A drag that began on the bar: tile 10 is 9 of 9 steps along.
    let drag = MouseEvent::ButtonDrag { button: MouseButton::Left, start_pos: Point2::new(0, 4) };
    assert!(bar.handle_event(&mut ctx, at(10, drag), bounds).is_err());
    assert_eq!(flo_binding::Bound::get(&pos), 10);
    // A drag that began on an arrow passes.
    let drag = MouseEvent::ButtonDrag { button: MouseButton::Left, start_pos: Point2::new(0, 0) };
    assert!(bar.handle_event(&mut ctx, at(5, drag), bounds).is_ok());
    assert_eq!(flo_binding::Bound::get(&pos), 10);
    assert!(ctx.batch.glyphs().is_empty());
}

#[test]
fn scroll_bar_draws_arrows_and_caret() {
    let mut batch = KataFontBatch::new();
    draw_bar(&mut batch, LayoutDirection::Horizontal, IRect::new(10, 3, 6, 1), 2);
    let got: Vec<(u16, u32, u32)> = batch.glyphs().iter().map(|g| (g.voxel.char_offset, g.dest.x, g.dest.y)).collect();
    assert_eq!(
        got,
        vec![(0x11, 10, 3), (0, 11, 3), (0, 12, 3), (0x2EC, 13, 3), (0, 14, 3), (0x10, 15, 3)]
    );
    assert_eq!(batch.glyphs()[0].voxel.background, Some(gray()));
    assert_eq!(batch.glyphs()[1].voxel.background, Some(dark_gray()));
    assert_eq!(batch.glyphs()[3].voxel.background, Some(gray()));
    assert_eq!(batch.glyphs()[3].voxel.foreground, white());
    let mut batch = KataFontBatch::new();
    draw_bar(&mut batch, LayoutDirection::Vertical, IRect::new(10, 3, 2, 4), 0);
    let got: Vec<(u16, u32, u32)> = batch.glyphs().iter().map(|g| (g.voxel.char_offset, g.dest.x, g.dest.y)).collect();
    assert_eq!(
        got,
        vec![
            (0x1E, 10, 3),
            (0x2EC, 10, 4),
            (0, 10, 5),
            (0x1F, 10, 6),
            (0x1E, 11, 3),
            (0x2EC, 11, 4),
            (0, 11, 5),
            (0x1F, 11, 6),
        ]
    );
    // Through the element: the caret stands where the position is.
    let pos = flo_binding::bind(5u32);
    let max = flo_binding::bind(10u32);
    let mut bar = ScrollBar::new(pos, max, LayoutDirection::Vertical);
    let mut ctx = ctx();
    assert!(bar.handle_event(&mut ctx, Event::Draw, IRect::new(0, 0, 1, 13)).is_ok());
    let carets: Vec<(u16, u32, u32)> = places(&ctx).into_iter().filter(|g| g.0 == 0x2EC).collect();
    assert_eq!(carets, vec![(0x2EC, 0, 6)]);
    assert_eq!(places(&ctx).len(), 13);
}

#[test]
fn list_lays_out_and_scrolls() {
    let mut elements = Vec::new();
    let mut seen = Vec::new();
    for i in 0..5u32 {
        let (probe, s, _) = Probe::new(3 + i, 2);
        elements.push(ListElement::new(probe));
        seen.push(s);
    }
    let mut list = List::from_vec(elements);
    // Ten tiles of elements in six tiles of list: a scroll bar appears.
    let c = BoxConstraints::new(Size::new(0, 0), Size::new(20, 6));
    assert_eq!(list.layout(c), Size::new(8, 6));
    assert_eq!(list.scrollbar_size, Some(Size::new(1, 6)));
    // The last three elements fill the list; the scroll bar stops one
    // element before the first of them.
    assert_eq!(flo_binding::Bound::get(&list.scrollbar.scroll_max), 1);
    assert_eq!(flo_binding::Bound::get(&list.scrollbar.scroll_pos), 0);
    for e in list.elements.iter() {
        assert!(e.size.is_some());
    }
    let bounds = IRect::new(0, 0, 8, 6);
    let mut ctx = ctx();
    let scroll = Event::Mouse { pos: Point2::new(1, 1), e: MouseEvent::WheelDown };
    let back = Event::Mouse { pos: Point2::new(1, 1), e: MouseEvent::WheelUp };
    assert!(list.handle_event(&mut ctx, back, bounds).is_err());
    assert_eq!(flo_binding::Bound::get(&list.scrollbar.scroll_pos), 0);
    assert!(list.handle_event(&mut ctx, scroll, bounds).is_err());
    assert_eq!(flo_binding::Bound::get(&list.scrollbar.scroll_pos), 1);
    assert!(list.handle_event(&mut ctx, scroll, bounds).is_err());
    assert_eq!(flo_binding::Bound::get(&list.scrollbar.scroll_pos), 1);
    // Drawing reaches the three elements in view, from the second on.
    assert!(list.handle_event(&mut ctx, Event::Draw, bounds).is_ok());
    assert!(seen[0].borrow().is_empty());
    assert_eq!(seen[1].borrow().clone(), vec![IRect::new(0, 0, 4, 2)]);
    assert_eq!(seen[2].borrow().clone(), vec![IRect::new(0, 2, 5, 2)]);
    assert_eq!(seen[3].borrow().clone(), vec![IRect::new(0, 4, 6, 2)]);
    assert!(seen[4].borrow().is_empty());
    // The scroll bar was drawn along the far side.
    assert!(places(&ctx).iter().all(|g| g.1 == 7));
    assert_eq!(places(&ctx).len(), 6);

    // With room for all there is no scroll bar.
    let c = BoxConstraints::new(Size::new(0, 0), Size::new(20, 10));
    assert_eq!(list.layout(c), Size::new(7, 10));
    assert_eq!(list.scrollbar_size, None);
    assert_eq!(flo_binding::Bound::get(&list.scrollbar.scroll_max), 0);

    let mut empty = List::new();
    assert_eq!(empty.layout(c), Size::new(0, 10));
    assert_eq!(List::bar_bounds(IRect::new(2, 3, 10, 8), Size::new(1, 8)), IRect::new(11, 3, 1, 8));
}

#[test]
fn list_helpers() {
    let mut elements = Vec::new();
    for h in [4u32, 1, 2, 3] {
        let (probe, _, _) = Probe::new(2 + h, h);
        elements.push(ListElement::new(probe));
    }
    let c = BoxConstraints::new(Size::new(0, 0), Size::new(20, u32::MAX));
    assert_eq!(layout_list_elements(&mut elements, c), Size::new(6, 10));
    // The last two fit into five tiles, the last three do not.
    assert_eq!(list_scroll_max(&elements, 5), 1);
    assert_eq!(list_scroll_max(&elements, 6), 0);
    assert_eq!(list_scroll_max(&elements, 2), 3);
    assert_eq!(list_scroll_max(&elements, 3), 2);
    assert_eq!(list_scroll_max(&elements, 100), 0);
}

fn stack_of(sizes: &[Option<u32>]) -> (Vec<StackedElement>, Vec<Rc<RefCell<Vec<BoxConstraints>>>>, Vec<Rc<RefCell<Vec<IRect>>>>) {
    let mut elements = Vec::new();
    let mut constraints = Vec::new();
    let mut seen = Vec::new();
    for s in sizes {
        let (probe, b, c) = Probe::new(1, 1);
        let mut e = StackedElement::new(probe);
        e.size = *s;
        elements.push(e);
        constraints.push(c);
        seen.push(b);
    }
    (elements, constraints, seen)
}

fn stacked_sizes_after(sizes: &[Option<u32>], length: u32, dividers: bool) -> Vec<Option<u32>> {
    let (elements, _, seen) = stack_of(sizes);
    let mut stack = StackedLayout::horizontal(elements);
    if dividers {
        stack = stack.with_dividers();
    }
    let c = BoxConstraints::new(Size::new(0, 0), Size::new(length, 7));
    assert_eq!(stack.layout(c), Size::new(length, 7));
    let mut ctx = ctx();
    let click = Event::Mouse { pos: Point2::new(0, 0), e: MouseEvent::WheelUp };
    assert!(stack.handle_event(&mut ctx, click, IRect::new(0, 0, length, 7)).is_ok());
    seen.iter().map(|s| s.borrow().first().map(|r| r.w)).collect()
}

#[test]
fn stacked_layout_deals_out_lengths() {
    // Nothing has a length: all share evenly.
    assert_eq!(
        stacked_sizes_after(&[None, None, None], 10, false),
        vec![Some(4), Some(3), Some(3)]
    );
    // The lengths fill the stack: they stay.
    assert_eq!(
        stacked_sizes_after(&[Some(2), Some(8)], 10, false),
        vec![Some(2), Some(8)]
    );
    // Too long: all share anew.
    assert_eq!(
        stacked_sizes_after(&[Some(20), Some(8)], 10, false),
        vec![Some(5), Some(5)]
    );
    // Full, but an element has no length: all share anew.
    assert_eq!(
        stacked_sizes_after(&[Some(10), None], 10, false),
        vec![Some(5), Some(5)]
    );
    // Room left and all have a length: they grow evenly.
    assert_eq!(
        stacked_sizes_after(&[Some(1), Some(2), Some(3)], 10, false),
        vec![Some(3), Some(3), Some(4)]
    );
    // Room left for the elements without a length.
    assert_eq!(
        stacked_sizes_after(&[None, Some(3), None, None], 10, false),
        vec![Some(3), Some(3), Some(2), Some(2)]
    );
    // Dividers take a tile between each two elements.
    assert_eq!(
        stacked_sizes_after(&[None, None, None], 11, true),
        vec![Some(3), Some(3), Some(3)]
    );
    assert_eq!(stacked_sizes_after(&[], 10, true), vec![]);
}

#[test]
fn stacked_layout_places_elements_and_dividers() {
    let (elements, constraints, seen) = stack_of(&[None, None]);
    let mut stack = StackedLayout::vertical(elements).with_dividers();
    let c = BoxConstraints::new(Size::new(0, 0), Size::new(4, 9));
    assert_eq!(stack.layout(c), Size::new(4, 9));
    assert_eq!(stack.scan_sizes(), (8, 0));
    assert_eq!(constraints[0].borrow().clone(), vec![BoxConstraints::exact(Size::new(4, 4))]);
    let mut ctx = ctx();
    assert!(stack.handle_event(&mut ctx, Event::Draw, IRect::new(2, 10, 4, 9)).is_ok());
    assert_eq!(seen[0].borrow().clone(), vec![IRect::new(2, 10, 4, 4)]);
    assert_eq!(seen[1].borrow().clone(), vec![IRect::new(2, 15, 4, 4)]);
    assert_eq!(
        places(&ctx),
        vec![(0x265, 2, 14), (0x265, 3, 14), (0x265, 4, 14), (0x265, 5, 14)]
    );
    let empty = StackedLayout::empty(LayoutDirection::Horizontal);
    assert_eq!(empty.scan_sizes(), (0, 0));
    let (elements, _, _) = stack_of(&[Some(3), None, Some(4), None]);
    assert_eq!(StackedLayout::from_vec(LayoutDirection::Horizontal, elements).scan_sizes(), (7, 2));
}

#[test]
fn stacked_layout_stops_at_the_element_that_uses_the_event() {
    let seen_a = Rc::new(RefCell::new(Vec::new()));
    let seen_b = Rc::new(RefCell::new(Vec::new()));
    let a = Probe { size: Size::new(1, 1), seen: seen_a.clone(), constraints: Rc::new(RefCell::new(Vec::new())), stop: true };
    let b = Probe { size: Size::new(1, 1), seen: seen_b.clone(), constraints: Rc::new(RefCell::new(Vec::new())), stop: false };
    let mut stack = StackedLayout::horizontal(vec![StackedElement::new(Box::new(a)), StackedElement::new(Box::new(b))]);
    stack.layout(BoxConstraints::exact(Size::new(6, 1)));
    let mut ctx = ctx();
    assert!(stack.handle_event(&mut ctx, Event::Draw, IRect::new(0, 0, 6, 1)).is_err());
    assert_eq!(seen_a.borrow().len(), 1);
    assert!(seen_b.borrow().is_empty());
}

#[test]
fn flex_layout_shares_what_is_left() {
    let (fixed, fixed_seen, fixed_constraints) = Probe::new(3, 2);
    let (one, one_seen, one_constraints) = Probe::new(0, 0);
    let (two, two_seen, _) = Probe::new(0, 0);
    let mut flex = FlexLayout::horizontal(vec![
        FlexElement::flex(one, 1),
        FlexElement::fixed(fixed),
        FlexElement::flex(two, 2),
    ]);
    let c = BoxConstraints::new(Size::new(0, 0), Size::new(13, 5));
    // Ten tiles are left for three shares: 4 and 6.
    assert_eq!(flex.layout(c), Size::new(13, 2));
    assert_eq!(
        fixed_constraints.borrow().clone(),
        vec![BoxConstraints::new(Size::new(0, 0), Size::new(13, 5))]
    );
    assert_eq!(one_constraints.borrow().clone(), vec![BoxConstraints::exact(Size::new(4, 5))]);
    let mut ctx = ctx();
    assert!(flex.handle_event(&mut ctx, Event::Draw, IRect::new(1, 1, 13, 5)).is_ok());
    assert_eq!(one_seen.borrow().clone(), vec![IRect::new(1, 1, 4, 5)]);
    assert_eq!(fixed_seen.borrow().clone(), vec![IRect::new(5, 1, 3, 5)]);
    assert_eq!(two_seen.borrow().clone(), vec![IRect::new(8, 1, 6, 5)]);

    // Without shares the layout is as long as its elements.
    let (a, _, _) = Probe::new(3, 2);
    let (b, _, _) = Probe::new(4, 1);
    let mut flex = FlexLayout::vertical(vec![FlexElement::fixed(a), FlexElement::fixed(b)]);
    assert_eq!(flex.layout(c), Size::new(4, 3));
    let mut none = FlexLayout::empty(LayoutDirection::Horizontal);
    assert_eq!(none.layout(c), Size::new(0, 0));
    let mut from = FlexLayout::from_vec(LayoutDirection::Vertical, Vec::new());
    assert_eq!(from.layout(c), Size::new(0, 0));
}

#[test]
fn slices_of_bounds() {
    let r = IRect::new(2, 3, 10, 20);
    assert_eq!(slice_from(r, LayoutDirection::Horizontal, 4, 3), IRect::new(6, 3, 3, 20));
    assert_eq!(slice_from(r, LayoutDirection::Vertical, 4, 3), IRect::new(2, 7, 10, 3));
    assert_eq!(slice_from(r, LayoutDirection::Horizontal, u32::MAX, 3), IRect::new(u32::MAX, 3, 3, 20));
    let p = Point2::new(4, 9);
    assert_eq!(*p.dir(LayoutDirection::Horizontal), 4);
    assert_eq!(*p.dir(LayoutDirection::Vertical), 9);
}

#[test]
fn voxels() {
    let v = Voxel2::new(7);
    assert_eq!(v.char_offset, 7);
    assert_eq!(v.foreground, white());
    assert_eq!(v.background, None);
    assert_eq!(v.rotation, VoxelRotation::Rotation0);
    assert_eq!(v.mirror, VoxelMirror::MirrorNone);
    let w = v
        .foreground(Color::new(1, 2, 3))
        .background(Some(gray()))
        .rotation(VoxelRotation::Rotation180)
        .mirror(VoxelMirror::MirrorY);
    assert_eq!(w.char_offset, 7);
    assert_eq!(w.foreground, Color::new(1, 2, 3));
    assert_eq!(w.background, Some(gray()));
    assert_eq!(w.rotation, VoxelRotation::Rotation180);
    assert_eq!(w.mirror, VoxelMirror::MirrorY);
    assert_eq!(Voxel2::default(), Voxel2::new(0));
    assert_eq!(VoxelMirror::MirrorNone.flips(), (false, false));
    assert_eq!(VoxelMirror::MirrorX.flips(), (true, false));
    assert_eq!(VoxelMirror::MirrorY.flips(), (false, true));
    assert_eq!(VoxelMirror::MirrorBoth.flips(), (true, true));
    let mut block = Voxel3::new(Voxel2::new(1), Voxel2::new(2), Voxel2::new(3));
    assert_eq!(block.face(VoxelFace::X).char_offset, 1);
    assert_eq!(block.face(VoxelFace::Y).char_offset, 2);
    assert_eq!(block.face(VoxelFace::Z).char_offset, 3);
    block.face_mut(VoxelFace::Y).char_offset = 9;
    assert_eq!(block, Voxel3::new(Voxel2::new(1), Voxel2::new(9), Voxel2::new(3)));
    assert_eq!(Voxel3::default().x, Voxel2::new(0));
}

/// A voxel that is read from a binding each time it is shown.
struct BoundVoxel<B>(B);

impl<B: Bound<Voxel2>> VoxelSource for BoundVoxel<B> {
    fn get(&self) -> Voxel2 {
        self.0.get()
    }
}

fn side_divider() -> Box<dyn Element> {
    Box::new(Placeholder::new(
        Voxel2::new(0x266).background(Some(katakomb::rendering::color::black())),
        |c: BoxConstraints| Size::new(1, c.max.height),
    ))
}

#[test]
fn a_whole_screen_of_elements() {
    let voxel = Binding::new(Voxel3::default());
    let active_face = Binding::new(VoxelFace::X);
    let charset_width: u16 = 4;

    let font_display = List::from_vec(
        (0..3u16)
            .map(|y| {
                ListElement::new(Box::new(
                    KataText::from_voxels((0..charset_width).map(|x| Voxel2::new(y * charset_width + x)).collect())
                        .with_events({
                            let voxel = voxel.clone();
                            let active_face = active_face.clone();
                            move |_self: &KataText, _ctx: &mut UiContext, e: Event, bounds: IRect| {
                                match e.cull(bounds) {
                                    Some(Event::Mouse {
                                        pos,
                                        e: MouseEvent::ButtonDown { button: MouseButton::Left },
                                    }) => {
                                        let x = pos.x - bounds.x;
                                        let char_offset = y * charset_width + x as u16;
                                        let mut new_voxel = voxel.get();
                                        new_voxel.face_mut(active_face.get()).char_offset = char_offset;
                                        voxel.set(new_voxel);
                                        return Err(Stop);
                                    }
                                    _ => {}
                                }
                                Ok(Continue)
                            }
                        }),
                ))
            })
            .collect(),
    );

    let face_display = |char_offset: u8, face: VoxelFace| -> Box<dyn Element> {
        let voxel = voxel.clone();
        let active_face = active_face.clone();
        Box::new(FlexLayout::vertical(vec![
            FlexElement::fixed(Box::new(Placeholder::new(Voxel2::new(char_offset.into()), |c: BoxConstraints| {
                c.constrain(Size::new(1, 1))
            }))),
            FlexElement::fixed(Box::new(
                VoxelDisplay::new(BoundVoxel(flo_binding::computed(move || *voxel.get().face(face)))).with_events(
                    move |_self: &VoxelDisplay<_>, _ctx: &mut UiContext, e: Event, bounds: IRect| {
                        match e.cull(bounds) {
                            Some(Event::Mouse {
                                e: MouseEvent::ButtonDown { button: MouseButton::Left },
                                ..
                            }) => active_face.set(face),
                            _ => {}
                        }
                        Ok(Continue)
                    },
                ),
            )),
        ]))
    };

    let voxel_info = FlexLayout::vertical(vec![
        FlexElement::flex(Box::new(Filling::blank()), 1),
        FlexElement::fixed(Box::new(FlexLayout::horizontal(vec![
            FlexElement::flex(Box::new(Filling::blank()), 1),
            FlexElement::fixed(face_display(b'X', VoxelFace::X)),
            FlexElement::fixed(face_display(b'Y', VoxelFace::Y)),
            FlexElement::fixed(face_display(b'Z', VoxelFace::Z)),
            FlexElement::flex(Box::new(Filling::blank()), 1),
        ]))),
        FlexElement::flex(Box::new(Filling::blank()), 1),
    ]);

    let mut screen = FlexLayout::horizontal(vec![
        FlexElement::fixed(Box::new(font_display)),
        FlexElement::fixed(side_divider()),
        FlexElement::flex(Box::new(Centered::new(voxel_info)), 1),
    ]);

    let size = Size::new(20, 6);
    assert_eq!(screen.layout(BoxConstraints::exact(size)), Size::new(20, 6));
    let bounds = IRect::new(0, 0, 20, 6);
    let mut ctx = ctx();
    assert!(screen.handle_event(&mut ctx, Event::Draw, bounds).is_ok());
    let drawn = places(&ctx);
    // The glyphs of the font come first, row by row.
    assert_eq!(drawn[0], (0, 0, 0));
    assert_eq!(drawn[5], (5, 1, 1));
    assert_eq!(drawn[11], (11, 3, 2));
    // Every tile of the screen right of the font is drawn on.
    assert!(drawn.iter().any(|g| *g == (0x266, 4, 0)));
    assert!(drawn.iter().any(|g| g.0 == b'X' as u16));
    assert!(drawn.iter().any(|g| g.0 == b'Z' as u16));

    // A click on a glyph of the font sets it on the active face.
    let click = |x, y| Event::Mouse {
        pos: Point2::new(x, y),
        e: MouseEvent::ButtonDown { button: MouseButton::Left },
    };
    assert!(screen.handle_event(&mut ctx, click(2, 1), bounds).is_err());
    assert_eq!(voxel.get().x.char_offset, 6);
    assert_eq!(voxel.get().y.char_offset, 0);
    // A click on the display of the y face makes that face the active one.
    let y_face = drawn.iter().position(|g| g.0 == b'Y' as u16).unwrap();
    let (_, fx, fy) = drawn[y_face];
    assert!(screen.handle_event(&mut ctx, click(fx, fy + 1), bounds).is_ok());
    assert_eq!(active_face.get(), VoxelFace::Y);
    assert!(screen.handle_event(&mut ctx, click(3, 2), bounds).is_err());
    assert_eq!(voxel.get().y.char_offset, 11);
    assert_eq!(voxel.get().x.char_offset, 6);
}

#[test]
fn a_boxed_element_is_the_element() {
    let (probe, seen, constraints) = Probe::new(3, 2);
    let mut padded = Padding::new(probe, 1, 1, 1, 1);
    let c = BoxConstraints::new(Size::new(0, 0), Size::new(10, 10));
    assert_eq!(padded.layout(c), Size::new(3, 2));
    assert_eq!(
        constraints.borrow().clone(),
        vec![BoxConstraints::new(Size::new(0, 0), Size::new(8, 8))]
    );
    let mut ctx = ctx();
    assert!(padded.handle_event(&mut ctx, Event::Draw, IRect::new(0, 0, 10, 10)).is_ok());
    assert_eq!(seen.borrow().clone(), vec![IRect::new(1, 1, 8, 8)]);
}

#[test]
fn an_element_behind_a_handler_answers_after_it() {
    let (mut probe, seen, constraints) = Probe::make(2, 2);
    probe.stop = true;
    let mut with = probe.with_events(
        |_element: &Probe, _ctx: &mut UiContext, event: Event, _bounds: IRect| match event {
            Event::Mouse { .. } => Err(Stop),
            Event::Draw => Ok(Continue),
        },
    );
    let c = BoxConstraints::exact(Size::new(4, 4));
    assert_eq!(with.layout(c), Size::new(2, 2));
    assert_eq!(constraints.borrow().clone(), vec![c]);
    let mut ctx = ctx();
    // The handler lets the request pass, the element uses it up.
    assert!(with.handle_event(&mut ctx, Event::Draw, IRect::new(1, 2, 3, 4)).is_err());
    assert_eq!(seen.borrow().clone(), vec![IRect::new(1, 2, 3, 4)]);
    // The handler uses the click up, and the element does not see it.
    let click = Event::Mouse { pos: Point2::new(1, 2), e: MouseEvent::WheelUp };
    assert!(with.handle_event(&mut ctx, click, IRect::new(1, 2, 3, 4)).is_err());
    assert_eq!(seen.borrow().len(), 1);
}

#[test]
fn new_elements_of_rows_have_no_size() {
    let (probe, _, _) = Probe::new(1, 1);
    assert_eq!(ListElement::new(probe).size, None);
    let (probe, _, _) = Probe::new(1, 1);
    assert_eq!(StackedElement::new(probe).size, None);
    let (probe, _, _) = Probe::new(1, 1);
    let fixed = FlexElement::fixed(probe);
    assert_eq!((fixed.flex, fixed.size), (0, None));
    let (probe, _, _) = Probe::new(1, 1);
    let flex = FlexElement::flex(probe, 3);
    assert_eq!((flex.flex, flex.size), (3, None));
    let list = List::new();
    assert!(list.elements.is_empty());
    assert_eq!(list.scrollbar_size, None);
    assert_eq!(list.scrollbar.direction, LayoutDirection::Vertical);
}

#[test]
fn the_caret_stands_where_the_position_puts_it() {
    let pos: Binding<u32> = flo_binding::bind(2);
    let max: Binding<u32> = flo_binding::bind(4);
    let mut bar = ScrollBar::new(pos, max, LayoutDirection::Vertical);
    let mut ctx = ctx();
    assert!(bar.handle_event(&mut ctx, Event::Draw, IRect::new(0, 0, 1, 9)).is_ok());
    let mut expected = KataFontBatch::new();
    draw_bar(&mut expected, LayoutDirection::Vertical, IRect::new(0, 0, 1, 9), scaled_round(2, 4, 6));
    assert_eq!(ctx.batch.glyphs(), expected.glyphs());
}

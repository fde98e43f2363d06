use katakomb::geometry::point::{Point2, Vector2};
use katakomb::geometry::rect::IRect;
use katakomb::ui::{LayoutDirection, Size};

fn assert_points(rect: IRect, expected: &[[u32; 2]]) {
    let actual: Vec<Point2> = rect.points().collect();
    let expected: Vec<Point2> = expected.iter().map(|p| Point2::new(p[0], p[1])).collect();
    assert_eq!(actual, expected);
}

#[test]
fn test_points() {
    assert_points(
        IRect::new(0, 0, 2, 3),
        &[[0, 0], [1, 0], [0, 1], [1, 1], [0, 2], [1, 2]],
    );
    assert_points(IRect::new(0, 0, 0, 0), &[]);
    assert_points(IRect::new(20, 50, 3, 1), &[[20, 50], [21, 50], [22, 50]]);
    assert_points(IRect::new(10, 10, 1, 1), &[[10, 10]]);
}

#[test]
fn points_cursor_counts_down() {
    let mut points = IRect::new(5, 6, 2, 2).points();
    assert_eq!(points.size_hint(), (4, Some(4)));
    assert_eq!(points.next(), Some(Point2::new(5, 6)));
    assert_eq!(points.next(), Some(Point2::new(6, 6)));
    assert_eq!(points.size_hint(), (2, Some(2)));
    assert_eq!(points.next(), Some(Point2::new(5, 7)));
    assert_eq!(points.next(), Some(Point2::new(6, 7)));
    assert_eq!(points.next(), None);
    assert_eq!(points.next(), None);
    assert_eq!(points.size_hint(), (0, Some(0)));
}

#[test]
fn rect_edges() {
    let r = IRect::new(2, 3, 4, 5);
    assert_eq!(r.left(), 2);
    assert_eq!(r.right(), 6);
    assert_eq!(r.top(), 3);
    assert_eq!(r.bottom(), 8);
    assert_eq!(r.point(), Point2::new(2, 3));
    assert_eq!(r.size(), Size::new(4, 5));
    assert_eq!(IRect::zero(), IRect::new(0, 0, 0, 0));
    assert_eq!(IRect::one(), IRect::new(0, 0, 1, 1));
    assert_eq!(IRect::default(), IRect::zero());
}

#[test]
fn rect_contains_excludes_far_edges() {
    let r = IRect::new(2, 3, 4, 5);
    assert!(r.contains(Point2::new(2, 3)));
    assert!(r.contains(Point2::new(5, 7)));
    assert!(!r.contains(Point2::new(6, 7)));
    assert!(!r.contains(Point2::new(5, 8)));
    assert!(!r.contains(Point2::new(1, 3)));
    assert!(!r.contains(Point2::new(2, 2)));
}

#[test]
fn rect_overlaps() {
    let r = IRect::new(2, 3, 4, 5);
    assert!(r.overlaps(&IRect::new(5, 7, 3, 3)));
    assert!(!r.overlaps(&IRect::new(6, 3, 2, 2)));
    assert!(!r.overlaps(&IRect::new(0, 0, 2, 3)));
    assert!(r.overlaps(&r));
}

#[test]
fn rect_moves() {
    let mut r = IRect::new(2, 3, 4, 5);
    r.translate(Vector2::new(10, 20));
    assert_eq!(r, IRect::new(12, 23, 4, 5));
    r.move_to(Point2::new(1, 1));
    assert_eq!(r, IRect::new(1, 1, 4, 5));
}

#[test]
fn rect_combine_with_spans_both() {
    let a = IRect::new(2, 3, 4, 5);
    let b = IRect::new(0, 6, 3, 10);
    assert_eq!(a.combine_with(b), IRect::new(0, 3, 6, 13));
    assert_eq!(b.combine_with(a), IRect::new(0, 3, 6, 13));
    assert_eq!(a.combine_with(a), a);
}

#[test]
fn rect_directions() {
    let r = IRect::new(2, 3, 4, 5);
    assert_eq!(r.dir_start(LayoutDirection::Horizontal), 2);
    assert_eq!(r.dir_end(LayoutDirection::Horizontal), 6);
    assert_eq!(r.dir_start(LayoutDirection::Vertical), 3);
    assert_eq!(r.dir_end(LayoutDirection::Vertical), 8);
    assert_eq!(r.dir(LayoutDirection::Vertical), 3..8);
    assert_eq!(r.slice_dir(LayoutDirection::Horizontal, 1..3), IRect::new(3, 3, 2, 5));
    assert_eq!(r.slice_dir(LayoutDirection::Vertical, 2..5), IRect::new(2, 5, 4, 3));
}

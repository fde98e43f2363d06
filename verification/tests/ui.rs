use katakomb::ui::{spread, spread_flex, BoxConstraints, LayoutDirection, Size};

#[test]
fn test_spread() {
    for n in 1..100 {
        for total in 1..100 {
            assert_eq!((0..n).map(|i| spread(i, total, n)).sum::<u32>(), total);
        }
    }
}

#[test]
fn text_flex_spread() {
    for total_flex in 1..10 {
        for total in 1..100 {
            for flex_1 in 0..total_flex {
                for flex_2 in flex_1..total_flex {
                    let flex_range_1 = 0..flex_1;
                    let flex_range_2 = flex_1..flex_2;
                    let flex_range_3 = flex_2..total_flex;

                    assert_eq!(
                        spread_flex(flex_range_1, total, total_flex)
                            + spread_flex(flex_range_2, total, total_flex)
                            + spread_flex(flex_range_3, total, total_flex),
                        total
                    );
                }
            }
        }
    }
}

#[test]
fn spread_gives_the_remainder_to_the_first_elements() {
    assert_eq!(spread(0, 10, 3), 4);
    assert_eq!(spread(1, 10, 3), 3);
    assert_eq!(spread(2, 10, 3), 3);
    assert_eq!(spread(0, 2, 5), 1);
    assert_eq!(spread(1, 2, 5), 1);
    assert_eq!(spread(2, 2, 5), 0);
}

#[test]
fn spread_flex_exact_values() {
    assert_eq!(spread_flex(0..1, 10, 4), 3);
    assert_eq!(spread_flex(1..3, 10, 4), 5);
    assert_eq!(spread_flex(3..4, 10, 4), 2);
    assert_eq!(spread_flex(0..4, 10, 4), 10);
    assert_eq!(spread_flex(2..2, 10, 4), 0);
}

#[test]
fn size_arithmetic() {
    let a = Size::new(10, 4);
    let b = Size::new(3, 9);
    assert_eq!(a.shrink(b), Size::new(7, 0));
    assert_eq!(a.min(b), Size::new(3, 4));
    assert_eq!(a.max(b), Size::new(10, 9));
    assert_eq!(*a.dir(LayoutDirection::Horizontal), 10);
    assert_eq!(*a.dir(LayoutDirection::Vertical), 4);
    assert_eq!(a.with_dir(LayoutDirection::Vertical, 7), Size::new(10, 7));
    let mut c = a;
    *c.dir_mut(LayoutDirection::Horizontal) = 1;
    assert_eq!(c, Size::new(1, 4));
    assert_eq!(Size::default(), Size::new(0, 0));
    assert_eq!(Size::zero(), Size::new(0, 0));
}

#[test]
fn constraints_clamp_sizes() {
    let c = BoxConstraints::new(Size::new(2, 2), Size::new(8, 6));
    assert_eq!(c.constrain(Size::new(1, 10)), Size::new(2, 6));
    assert_eq!(c.constrain(Size::new(5, 5)), Size::new(5, 5));
    assert_eq!(BoxConstraints::exact(Size::new(3, 4)).constrain(Size::new(0, 9)), Size::new(3, 4));
    assert_eq!(c.shrink(Size::new(3, 1)), BoxConstraints::new(Size::new(0, 1), Size::new(5, 5)));
    let tall = c.with_inf_height();
    assert_eq!(tall.min, Size::new(2, u32::MAX));
    assert_eq!(tall.max, Size::new(8, u32::MAX));
}

#[test]
fn directions_cross() {
    assert_eq!(LayoutDirection::Horizontal.other(), LayoutDirection::Vertical);
    assert_eq!(LayoutDirection::Vertical.other(), LayoutDirection::Horizontal);
}

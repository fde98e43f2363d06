use katakomb::geometry::point::{GridCoord, Point3};
use katakomb::geometry::util::{
    bounds_of, calculate_bresenham, calculate_sphere, calculate_sphere_surface,
    euclidean_distance_squared,
};
use katakomb::rendering::tile::{Tile, TileType};
use katakomb::world::grid::TileGrid;
use katakomb::world::util::{any_neighbour_is, try_bresenham_hitscan};

fn p(x: i32, y: i32, z: i32) -> Point3 {
    Point3::new(x, y, z)
}

#[test]
fn line_along_an_axis() {
    assert_eq!(calculate_bresenham(p(0, 0, 0), p(3, 0, 0)), vec![p(0, 0, 0), p(1, 0, 0), p(2, 0, 0), p(3, 0, 0)]);
    assert_eq!(calculate_bresenham(p(1, 5, 2), p(1, 2, 2)), vec![p(1, 5, 2), p(1, 4, 2), p(1, 3, 2), p(1, 2, 2)]);
    assert_eq!(calculate_bresenham(p(4, 4, 4), p(4, 4, 4)), vec![p(4, 4, 4)]);
}

#[test]
fn line_through_space() {
    assert_eq!(
        calculate_bresenham(p(0, 0, 0), p(5, 2, -3)),
        vec![p(0, 0, 0), p(1, 0, -1), p(2, 1, -1), p(3, 1, -2), p(4, 2, -2), p(5, 2, -3)]
    );
    assert_eq!(
        calculate_bresenham(p(0, 0, 0), p(2, 2, 2)),
        vec![p(0, 0, 0), p(1, 1, 1), p(2, 2, 2)]
    );
    assert_eq!(
        calculate_bresenham(p(0, 0, 0), p(1, 4, 2)),
        vec![p(0, 0, 0), p(0, 1, 0), p(0, 2, 1), p(1, 3, 1), p(1, 4, 2)]
    );
    assert_eq!(
        calculate_bresenham(p(0, 0, 0), p(-1, 1, 3)),
        vec![p(0, 0, 0), p(0, 0, 1), p(-1, 1, 2), p(-1, 1, 3)]
    );
}

#[test]
fn line_ends_where_it_should() {
    for &(a, b) in &[
        (p(0, 0, 0), p(7, 3, 1)),
        (p(-4, 9, 2), p(5, -8, 13)),
        (p(1, 1, 1), p(1, 20, 19)),
        (p(100, -100, 0), p(-100, 100, 7)),
    ] {
        let line = calculate_bresenham(a, b);
        assert_eq!(line[0], a);
        assert_eq!(*line.last().unwrap(), b);
        let steps = (b.x - a.x).abs().max((b.y - a.y).abs()).max((b.z - a.z).abs());
        assert_eq!(line.len() as i32, steps + 1);
        for w in line.windows(2) {
            assert!((w[1].x - w[0].x).abs() <= 1);
            assert!((w[1].y - w[0].y).abs() <= 1);
            assert!((w[1].z - w[0].z).abs() <= 1);
        }
    }
}

#[test]
fn distances() {
    assert_eq!(euclidean_distance_squared(p(0, 0, 0), p(1, 2, 3)), 14);
    assert_eq!(euclidean_distance_squared(p(-1, -1, -1), p(1, 1, 1)), 12);
    assert_eq!(
        euclidean_distance_squared(p(i32::MIN, i32::MIN, i32::MIN), p(i32::MAX, i32::MAX, i32::MAX)),
        3 * (u32::MAX as u128) * (u32::MAX as u128)
    );
}

#[test]
fn spheres() {
    // Distances that round down to 1, in the cube from -1 up to 0.
    assert_eq!(
        calculate_sphere_surface(1),
        vec![
            p(-1, -1, -1),
            p(-1, -1, 0),
            p(-1, 0, -1),
            p(-1, 0, 0),
            p(0, -1, -1),
            p(0, -1, 0),
            p(0, 0, -1),
        ]
    );
    assert!(calculate_sphere_surface(0).is_empty());
    let ball = calculate_sphere(1);
    assert_eq!(ball.len(), 8);
    assert_eq!(ball[0], p(-1, -1, -1));
    assert_eq!(ball[7], p(0, 0, 0));
    assert!(calculate_sphere(0).is_empty());
    assert!(calculate_sphere(-3).is_empty());
    let shell = calculate_sphere_surface(3);
    for q in shell.iter() {
        let d2 = q.x * q.x + q.y * q.y + q.z * q.z;
        assert!((9..16).contains(&d2));
        assert!((-3..3).contains(&q.x) && (-3..3).contains(&q.y) && (-3..3).contains(&q.z));
    }
    assert!(shell.contains(&p(-3, 0, 0)));
    assert!(shell.contains(&p(2, 2, 1)));
    assert!(!shell.contains(&p(3, 0, 0)));
    assert!(!shell.contains(&p(1, 1, 1)));
    let mut count = 0;
    for x in -3..3 {
        for y in -3..3 {
            for z in -3..3 {
                if (9..16).contains(&(x * x + y * y + z * z)) {
                    count += 1;
                }
            }
        }
    }
    assert_eq!(shell.len(), count);
    let inside = calculate_sphere(2);
    assert!(inside.contains(&p(-2, -2, 0)));
    assert!(!inside.contains(&p(-2, -2, -2)));
}

#[test]
fn neighbours() {
    let mut grid = TileGrid::new(4, 4, 4, Tile::new(TileType::Air)).unwrap();
    grid.set(GridCoord::new(3, 3, 3), Tile::new(TileType::Rock2));
    let is_rock = |t: &Tile| !t.tile_type.is_transparent();
    assert!(any_neighbour_is(&grid, p(2, 2, 2), is_rock));
    assert!(any_neighbour_is(&grid, p(3, 3, 3), is_rock));
    assert!(any_neighbour_is(&grid, p(4, 4, 4), is_rock));
    assert!(!any_neighbour_is(&grid, p(1, 2, 2), is_rock));
    assert!(!any_neighbour_is(&grid, p(5, 3, 3), is_rock));
    assert!(any_neighbour_is(&grid, p(0, 0, 0), |t: &Tile| t.tile_type.is_transparent()));
    assert!(any_neighbour_is(&grid, p(-1, -1, -1), |t: &Tile| t.tile_type.is_transparent()));
    assert!(!any_neighbour_is(&grid, p(-2, 0, 0), |t: &Tile| t.tile_type.is_transparent()));
    assert!(!any_neighbour_is(&grid, p(i32::MAX, i32::MAX, i32::MAX), |_t: &Tile| true));
    assert!(!any_neighbour_is(&grid, p(i32::MIN, 0, 0), |_t: &Tile| true));
}

#[test]
fn hitscan_stops_at_rock() {
    let mut grid = TileGrid::new(64, 64, 64, Tile::new(TileType::Air)).unwrap();
    grid.set(GridCoord::new(5, 0, 0), Tile::new(TileType::Rock0));
    grid.set(GridCoord::new(7, 0, 0), Tile::new(TileType::Rock0));
    assert_eq!(try_bresenham_hitscan(&grid, p(0, 0, 0), p(10, 0, 0)), p(5, 0, 0));
    assert_eq!(try_bresenham_hitscan(&grid, p(10, 0, 0), p(0, 0, 0)), p(7, 0, 0));
    assert_eq!(try_bresenham_hitscan(&grid, p(0, 1, 0), p(10, 1, 0)), p(10, 1, 0));
    // From outside the chunk nothing is scanned.
    assert_eq!(try_bresenham_hitscan(&grid, p(-1, 0, 0), p(10, 0, 0)), p(-1, 0, 0));
    assert_eq!(try_bresenham_hitscan(&grid, p(64, 0, 0), p(0, 0, 0)), p(64, 0, 0));
    // A ray that leaves the chunk goes on to its end.
    assert_eq!(try_bresenham_hitscan(&grid, p(0, 1, 0), p(100, 1, 0)), p(100, 1, 0));
    assert_eq!(try_bresenham_hitscan(&grid, p(5, 0, 0), p(5, 0, 0)), p(5, 0, 0));
}

#[test]
fn bounds_of_points() {
    assert_eq!(bounds_of(&Vec::new()), None);
    assert_eq!(bounds_of(&vec![(3, -4, 5)]), Some(((3, -4, 5), (3, -4, 5))));
    assert_eq!(
        bounds_of(&vec![(3, -4, 5), (-7, 9, 5), (0, 0, -1), (2, 10, 4)]),
        Some(((-7, -4, -1), (3, 10, 5)))
    );
    assert_eq!(
        bounds_of(&vec![(i16::MAX, i16::MIN, 0), (i16::MIN, i16::MAX, 0)]),
        Some(((i16::MIN, i16::MIN, 0), (i16::MAX, i16::MAX, 0)))
    );
}

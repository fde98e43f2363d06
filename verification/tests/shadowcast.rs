use std::collections::BTreeSet;

use katakomb::geometry::point::{GridCoord, Point3};
use katakomb::rendering::tile::{Tile, TileType};
use katakomb::shadowcast::cast::{cast, shadowcast_octant, try_cast};
use katakomb::shadowcast::octant::{split_shadowcast_octants, ScanView};
use katakomb::shadowcast::scan::{scan_recursive_shadowcast, Visit};
use katakomb::shadowcast::shape::{Direction, LightShape};
use katakomb::util::LookupTables;
use katakomb::world::grid::TileGrid;

fn open_grid(w: usize, h: usize, d: usize) -> TileGrid {
    TileGrid::new(w, h, d, Tile::new(TileType::Air)).unwrap()
}

fn visited(visits: &[Visit]) -> BTreeSet<(usize, usize, usize)> {
    visits.iter().map(|v| (v.pos.x, v.pos.y, v.pos.z)).collect()
}

/// How far a cell lies from the corner of its octant next to the origin,
/// along one axis: the origin's own layer counts as layer 0 of the side with
/// the larger indices, the layer before it as layer 0 of the other side.
fn steps(origin: usize, cell: usize) -> usize {
    if cell >= origin {
        cell - origin
    } else {
        origin - 1 - cell
    }
}

fn expected_open(dims: (usize, usize, usize), origin: (usize, usize, usize), range: usize) -> BTreeSet<(usize, usize, usize)> {
    let mut set = BTreeSet::new();
    for x in 0..dims.0 {
        for y in 0..dims.1 {
            for z in 0..dims.2 {
                let inside = x + range >= origin.0
                    && x < origin.0 + range
                    && y + range >= origin.1
                    && y < origin.1 + range
                    && z + range >= origin.2
                    && z < origin.2 + range;
                let (a, b, c) = (steps(origin.0, x), steps(origin.1, y), steps(origin.2, z));
                if inside && a * a + b * b + c * c < range * range {
                    set.insert((x, y, z));
                }
            }
        }
    }
    set
}

#[test]
fn open_grid_is_covered_exactly() {
    let tables = LookupTables::new(12).unwrap();
    for range in 0..7 {
        let grid = open_grid(15, 14, 13);
        let origin = GridCoord::new(7, 6, 5);
        let visits = cast(&grid, origin, range, &LightShape::Sphere, Point3::new(7, 6, 5), &tables);
        assert_eq!(visited(&visits), expected_open((15, 14, 13), (7, 6, 5), range), "range {}", range);
    }
}

#[test]
fn open_grid_is_covered_exactly_near_borders() {
    let tables = LookupTables::new(12).unwrap();
    for &(ox, oy, oz) in &[(0, 0, 0), (4, 0, 3), (5, 5, 5), (1, 4, 2), (9, 9, 9)] {
        for range in 1..9 {
            let grid = open_grid(6, 5, 7);
            let visits = cast(
                &grid,
                GridCoord::new(ox, oy, oz),
                range,
                &LightShape::Sphere,
                Point3::new(ox as i32, oy as i32, oz as i32),
                &tables,
            );
            let origin = (ox.min(6), oy.min(5), oz.min(7));
            let mut expected = BTreeSet::new();
            for x in 0..6usize {
                for y in 0..5usize {
                    for z in 0..7usize {
                        let lo = (ox.saturating_sub(range).min(6), oy.saturating_sub(range).min(5), oz.saturating_sub(range).min(7));
                        let hi = ((ox + range).min(6), (oy + range).min(5), (oz + range).min(7));
                        let inside = lo.0 <= x && x < hi.0 && lo.1 <= y && y < hi.1 && lo.2 <= z && z < hi.2;
                        let (a, b, c) = (steps(origin.0, x), steps(origin.1, y), steps(origin.2, z));
                        if inside && a * a + b * b + c * c < range * range {
                            expected.insert((x, y, z));
                        }
                    }
                }
            }
            assert_eq!(visited(&visits), expected, "origin {:?} range {}", (ox, oy, oz), range);
        }
    }
}

fn cast_sphere(grid: &TileGrid, origin: (usize, usize, usize), range: usize) -> Vec<Visit> {
    let tables = LookupTables::new(12).unwrap();
    cast(
        grid,
        GridCoord::new(origin.0, origin.1, origin.2),
        range,
        &LightShape::Sphere,
        Point3::new(origin.0 as i32, origin.1 as i32, origin.2 as i32),
        &tables,
    )
}

fn rock() -> Tile {
    Tile::new(TileType::Rock0)
}

#[test]
fn single_blocking_cell_scenario() {
    // An open grid of 8 by 8 by 8 with one blocking cell, cast from the corner.
    let mut grid = open_grid(8, 8, 8);
    assert!(grid.set(GridCoord::new(4, 4, 4), rock()));
    let set = visited(&cast_sphere(&grid, (0, 0, 0), 10));
    // A blocking cell in range is itself visited: it is what the eye sees.
    assert!(set.contains(&(4, 4, 4)));
    // The seven cells behind it are reached past its sides, through the
    // wedges of the open cells around it.
    for &(x, y, z) in &[(5, 4, 4), (4, 5, 4), (4, 4, 5), (5, 5, 4), (5, 4, 5), (4, 5, 5), (5, 5, 5)] {
        assert!(set.contains(&(x, y, z)), "{:?}", (x, y, z));
    }
    // Cells at the range and beyond it are not visited.
    assert!(set.contains(&(7, 7, 1)));
    assert!(!set.contains(&(7, 7, 2)));
    assert!(!set.contains(&(7, 7, 7)));
    assert_eq!(set.len(), 480);
}

#[test]
fn blocking_cell_on_an_axis_hides_the_cells_behind_it() {
    let mut grid = open_grid(9, 9, 9);
    grid.set(GridCoord::new(4, 4, 6), rock());
    let set = visited(&cast_sphere(&grid, (4, 4, 4), 5));
    assert!(set.contains(&(4, 4, 5)));
    assert!(set.contains(&(4, 4, 6)));
    assert!(!set.contains(&(4, 4, 7)));
    assert!(!set.contains(&(4, 4, 8)));
    // Beside the axis the light goes on.
    assert!(set.contains(&(5, 4, 7)));
    assert!(set.contains(&(4, 5, 8)));
    // Along the other axes nothing blocks.
    assert!(set.contains(&(8, 4, 4)));
    assert!(set.contains(&(4, 8, 4)));
    assert!(set.contains(&(0, 4, 4)));
}

#[test]
fn blocking_cell_on_each_axis_and_side() {
    for axis in 0..3 {
        for &positive in &[true, false] {
            let at = |steps: usize| {
                let mut p = [6usize, 6, 6];
                p[axis] = if positive { 6 + steps } else { 6 - 1 - steps };
                (p[0], p[1], p[2])
            };
            let mut grid = open_grid(13, 13, 13);
            let wall = at(2);
            grid.set(GridCoord::new(wall.0, wall.1, wall.2), rock());
            let set = visited(&cast_sphere(&grid, (6, 6, 6), 6));
            assert!(set.contains(&at(0)));
            assert!(set.contains(&at(1)));
            assert!(set.contains(&at(2)));
            assert!(!set.contains(&at(3)), "axis {} positive {}", axis, positive);
            assert!(!set.contains(&at(4)));
            assert!(!set.contains(&at(5)));
        }
    }
}

#[test]
fn light_passes_a_gap_in_a_wall() {
    // A wall across the whole grid with one hole beside the axis.
    let mut grid = open_grid(9, 9, 9);
    for x in 0..9 {
        for y in 0..9 {
            if (x, y) != (5, 4) {
                grid.set(GridCoord::new(x, y, 6), rock());
            }
        }
    }
    let set = visited(&cast_sphere(&grid, (4, 4, 4), 5));
    assert!(set.contains(&(5, 4, 6)));
    assert!(set.contains(&(5, 4, 7)));
    assert!(set.contains(&(5, 4, 8)));
    // Straight behind the wall it stays dark.
    assert!(!set.contains(&(4, 4, 7)));
    assert!(!set.contains(&(3, 4, 7)));
    assert!(!set.contains(&(4, 3, 8)));
}

#[test]
fn one_cell_does_not_shadow_the_area_behind_a_corner() {
    let mut grid = open_grid(9, 9, 9);
    grid.set(GridCoord::new(5, 5, 5), rock());
    let set = visited(&cast_sphere(&grid, (4, 4, 4), 5));
    assert_eq!(set, expected_open((9, 9, 9), (4, 4, 4), 5));
}

#[test]
fn octant_cast_is_the_three_scans_in_turn() {
    let tables = LookupTables::new(12).unwrap();
    let mut grid = open_grid(10, 10, 10);
    grid.set(GridCoord::new(6, 5, 7), rock());
    grid.set(GridCoord::new(7, 7, 5), rock());
    let octs = split_shadowcast_octants(&grid, GridCoord::new(5, 5, 5), 5);
    let source = Point3::new(5, 5, 5);
    for oct in octs.iter() {
        let whole = shadowcast_octant(&grid, oct, 5, &LightShape::Sphere, source, &tables);
        let mut parts = Vec::new();
        for shift in 0..3 {
            let view = ScanView { octant: *oct, shift };
            parts.extend(scan_recursive_shadowcast(&grid, &view, 5, &LightShape::Sphere, source, &tables));
        }
        assert_eq!(whole, parts);
    }
}

#[test]
fn scan_visits_in_row_major_order_from_the_origin() {
    let tables = LookupTables::new(4).unwrap();
    let grid = open_grid(2, 2, 1);
    let octs = split_shadowcast_octants(&grid, GridCoord::new(0, 0, 0), 3);
    let view = ScanView { octant: octs[7], shift: 0 };
    let visits = scan_recursive_shadowcast(&grid, &view, 3, &LightShape::Sphere, Point3::new(0, 0, 0), &tables);
    let seen: Vec<(usize, usize, usize)> = visits.iter().map(|v| v.offset).collect();
    assert_eq!(seen, vec![(0, 0, 0), (1, 0, 0), (0, 1, 0), (1, 1, 0)]);
    let cells: Vec<(usize, usize, usize)> = visits.iter().map(|v| (v.pos.x, v.pos.y, v.pos.z)).collect();
    assert_eq!(cells, vec![(0, 0, 0), (1, 0, 0), (0, 1, 0), (1, 1, 0)]);
}

#[test]
fn scan_reports_positions_in_the_order_of_its_axes() {
    let tables = LookupTables::new(4).unwrap();
    let grid = open_grid(3, 1, 1);
    let octs = split_shadowcast_octants(&grid, GridCoord::new(0, 0, 0), 3);
    // Along the x axis: the depth of the scan is the x axis of the grid.
    let view = ScanView { octant: octs[7], shift: 1 };
    let visits = scan_recursive_shadowcast(&grid, &view, 3, &LightShape::Sphere, Point3::new(0, 0, 0), &tables);
    let seen: Vec<((usize, usize, usize), (usize, usize, usize))> =
        visits.iter().map(|v| ((v.pos.x, v.pos.y, v.pos.z), v.offset)).collect();
    assert_eq!(
        seen,
        vec![((0, 0, 0), (0, 0, 0)), ((1, 0, 0), (0, 0, 1)), ((2, 0, 0), (0, 0, 2))]
    );
}

#[test]
fn cast_is_repeatable() {
    let mut grid = open_grid(9, 9, 9);
    grid.set(GridCoord::new(4, 5, 6), rock());
    grid.set(GridCoord::new(2, 2, 2), rock());
    let first = cast_sphere(&grid, (4, 4, 4), 4);
    let second = cast_sphere(&grid, (4, 4, 4), 4);
    assert_eq!(first, second);
}

#[test]
fn cone_without_width_lights_nothing() {
    let tables = LookupTables::new(12).unwrap();
    let grid = open_grid(9, 9, 9);
    let cone = LightShape::Cone {
        facing: Direction { x: 0, y: 0, z: 1 },
        width_cos: 16384,
    };
    let visits = cast(&grid, GridCoord::new(4, 4, 4), 5, &cone, Point3::new(4, 4, 4), &tables);
    assert!(visits.is_empty());
}

#[test]
fn narrow_cone_lights_its_axis_only() {
    let tables = LookupTables::new(12).unwrap();
    let grid = open_grid(9, 9, 9);
    // A half angle of about 2.5 degrees: cosine 0.999.
    let cone = LightShape::Cone {
        facing: Direction { x: 0, y: 0, z: 1 },
        width_cos: 16368,
    };
    let set = visited(&cast(&grid, GridCoord::new(4, 4, 4), 5, &cone, Point3::new(4, 4, 4), &tables));
    let expected: BTreeSet<(usize, usize, usize)> =
        [(4, 4, 4), (4, 4, 5), (4, 4, 6), (4, 4, 7), (4, 4, 8)].into_iter().collect();
    assert_eq!(set, expected);
}

#[test]
fn half_space_cone_lights_one_side() {
    let tables = LookupTables::new(12).unwrap();
    let grid = open_grid(9, 9, 9);
    // A half angle of a quarter turn: everything in front of the light.
    let cone = LightShape::Cone {
        facing: Direction { x: 3, y: 0, z: 0 },
        width_cos: 0,
    };
    let set = visited(&cast(&grid, GridCoord::new(4, 4, 4), 4, &cone, Point3::new(4, 4, 4), &tables));
    assert!(!set.is_empty());
    for p in set.iter() {
        assert!(p.0 > 4 || *p == (4, 4, 4), "{:?}", p);
    }
    for &(x, y, z) in &[(4, 4, 4), (5, 4, 4), (6, 4, 4), (7, 4, 4), (5, 5, 5), (5, 3, 3), (6, 6, 4), (6, 2, 5)] {
        assert!(set.contains(&(x, y, z)), "{:?}", (x, y, z));
    }
    // The cells beside the light lie outside the cone.
    assert!(!set.contains(&(4, 5, 4)));
    assert!(!set.contains(&(4, 4, 5)));
    assert!(!set.contains(&(3, 4, 4)));
    // The range still holds.
    assert!(!set.contains(&(8, 4, 4)));
}

#[test]
fn shape_contains() {
    let sphere = LightShape::Sphere;
    assert!(sphere.contains((0, 0, 0)));
    assert!(sphere.contains((-5, 17, 3)));
    // A half angle just below an eighth of a turn: cosine 0.70715, in
    // 16384ths 11586.
    let cone = LightShape::Cone {
        facing: Direction { x: 0, y: 0, z: 2 },
        width_cos: 11586,
    };
    assert!(cone.contains((0, 0, 1)));
    assert!(cone.contains((0, 0, 0)));
    assert!(cone.contains((1, 0, 2)));
    assert!(cone.contains((99, 0, 100)));
    assert!(!cone.contains((1, 0, 1)));
    // Just above an eighth of a turn the diagonal is inside.
    let wider = LightShape::Cone {
        facing: Direction { x: 0, y: 0, z: 2 },
        width_cos: 11585,
    };
    assert!(wider.contains((1, 0, 1)));
    assert!(!wider.contains((100, 0, 99)));
    assert!(!cone.contains((2, 0, 1)));
    assert!(!cone.contains((0, 0, -1)));
    assert!(!cone.contains((0, 1, 0)));
    // Wider than a quarter turn.
    let wide = LightShape::Cone {
        facing: Direction { x: 0, y: 0, z: 1 },
        width_cos: -11585,
    };
    assert!(wide.contains((0, 1, 0)));
    assert!(wide.contains((1, 0, -1)) == false);
    assert!(wide.contains((2, 0, -1)));
    assert!(!wide.contains((0, 0, -1)));
    // Half a turn: everything but the point straight behind.
    let all = LightShape::Cone {
        facing: Direction { x: 0, y: 0, z: 1 },
        width_cos: -16384,
    };
    assert!(all.contains((1, 0, -100)));
    assert!(!all.contains((0, 0, -1)));
}

#[test]
fn octants_split_the_cube() {
    let grid = open_grid(10, 10, 10);
    let octs = split_shadowcast_octants(&grid, GridCoord::new(4, 5, 6), 3);
    let signs: Vec<(bool, bool, bool)> = octs.iter().map(|o| o.signs).collect();
    assert_eq!(
        signs,
        vec![
            (false, false, false),
            (false, false, true),
            (false, true, false),
            (false, true, true),
            (true, false, false),
            (true, false, true),
            (true, true, false),
            (true, true, true),
        ]
    );
    assert_eq!(octs[0].lo, GridCoord::new(1, 2, 3));
    assert_eq!(octs[0].hi, GridCoord::new(4, 5, 6));
    assert_eq!(octs[7].lo, GridCoord::new(4, 5, 6));
    assert_eq!(octs[7].hi, GridCoord::new(7, 8, 9));
    assert_eq!(octs[5].lo, GridCoord::new(4, 2, 6));
    assert_eq!(octs[5].hi, GridCoord::new(7, 5, 9));
    let mut count = vec![0u8; 1000];
    for o in octs.iter() {
        for x in o.lo.x..o.hi.x {
            for y in o.lo.y..o.hi.y {
                for z in o.lo.z..o.hi.z {
                    count[(x * 10 + y) * 10 + z] += 1;
                }
            }
        }
    }
    for x in 0..10usize {
        for y in 0..10usize {
            for z in 0..10usize {
                let inside = (1..7).contains(&x) && (2..8).contains(&y) && (3..9).contains(&z);
                assert_eq!(count[(x * 10 + y) * 10 + z], if inside { 1 } else { 0 });
            }
        }
    }
}

#[test]
fn octants_at_the_corner_are_clamped() {
    let grid = open_grid(4, 5, 6);
    let octs = split_shadowcast_octants(&grid, GridCoord::new(0, 0, 0), 100);
    for o in octs.iter().take(7) {
        assert!(o.is_empty());
    }
    assert!(!octs[7].is_empty());
    assert_eq!(octs[7].lo, GridCoord::new(0, 0, 0));
    assert_eq!(octs[7].hi, GridCoord::new(4, 5, 6));
    assert_eq!(octs[7].dim(), (4, 5, 6));
    // The cast itself goes through, and sees the whole grid.
    let tables = LookupTables::new(100).unwrap();
    let visits = cast(&grid, GridCoord::new(0, 0, 0), 100, &LightShape::Sphere, Point3::new(0, 0, 0), &tables);
    assert_eq!(visited(&visits).len(), 4 * 5 * 6);
}

#[test]
fn origin_outside_the_grid_is_taken_to_the_border() {
    let grid = open_grid(4, 4, 4);
    let octs = split_shadowcast_octants(&grid, GridCoord::new(9, 2, 2), 3);
    for o in octs.iter() {
        assert!(o.lo.x <= o.hi.x && o.hi.x <= 4);
    }
    assert!(octs[7].is_empty());
    assert_eq!(octs[3].lo, GridCoord::new(4, 2, 2));
    assert_eq!(octs[3].hi, GridCoord::new(4, 4, 4));
    let visits = cast_sphere(&grid, (9, 2, 2), 3);
    assert!(visits.is_empty());
}

#[test]
fn range_zero_visits_nothing() {
    let grid = open_grid(4, 4, 4);
    assert!(cast_sphere(&grid, (2, 2, 2), 0).is_empty());
    let one = visited(&cast_sphere(&grid, (2, 2, 2), 1));
    let expected: BTreeSet<(usize, usize, usize)> = [
        (1, 1, 1),
        (1, 1, 2),
        (1, 2, 1),
        (1, 2, 2),
        (2, 1, 1),
        (2, 1, 2),
        (2, 2, 1),
        (2, 2, 2),
    ]
    .into_iter()
    .collect();
    assert_eq!(one, expected);
}

#[test]
fn scan_view_maps_positions_to_the_grid() {
    let grid = open_grid(10, 10, 10);
    let octs = split_shadowcast_octants(&grid, GridCoord::new(4, 5, 6), 3);
    let negative = ScanView { octant: octs[0], shift: 0 };
    assert_eq!(negative.dim(), (3, 3, 3));
    assert_eq!(negative.cell(0, 0, 0), GridCoord::new(3, 4, 5));
    assert_eq!(negative.cell(2, 1, 0), GridCoord::new(1, 3, 5));
    let shifted = ScanView { octant: octs[7], shift: 1 };
    assert_eq!(shifted.cell(1, 2, 0), GridCoord::new(4, 6, 8));
    let shifted = ScanView { octant: octs[7], shift: 2 };
    assert_eq!(shifted.cell(1, 2, 0), GridCoord::new(6, 5, 7));
}

#[test]
fn cast_beyond_the_tables_is_refused() {
    let tables = LookupTables::new(4).unwrap();
    let grid = open_grid(6, 6, 6);
    let origin = GridCoord::new(3, 3, 3);
    let source = Point3::new(3, 3, 3);
    assert!(try_cast(&grid, origin, 5, &LightShape::Sphere, source, &tables).is_none());
    let visits = try_cast(&grid, origin, 4, &LightShape::Sphere, source, &tables).unwrap();
    assert_eq!(visits, cast(&grid, origin, 4, &LightShape::Sphere, source, &tables));
    assert!(!visits.is_empty());
}

#[test]
fn a_wall_in_the_first_layer_is_passed_by_the_scans_along_the_other_axes() {
    // On the side of the smaller indices the first layer is the layer
    // before the origin. A wall there blocks the scan along its own axis,
    // but the cell behind it lies in the first slice of the other two
    // scans, which reach it.
    let mut grid = open_grid(11, 11, 11);
    grid.set(GridCoord::new(4, 5, 5), rock());
    let set = visited(&cast_sphere(&grid, (5, 5, 5), 4));
    assert!(set.contains(&(4, 5, 5)));
    assert!(set.contains(&(3, 5, 5)));
    assert!(!set.contains(&(2, 5, 5)));
    // Two layers out the wall hides what lies behind it.
    let mut grid = open_grid(11, 11, 11);
    grid.set(GridCoord::new(3, 5, 5), rock());
    let set = visited(&cast_sphere(&grid, (5, 5, 5), 4));
    assert!(set.contains(&(3, 5, 5)));
    assert!(!set.contains(&(2, 5, 5)));
    assert!(!set.contains(&(1, 5, 5)));
}

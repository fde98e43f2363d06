use katakomb::geometry::point::{GridCoord, Point3};
use katakomb::rendering::color::{black, Color};
use katakomb::rendering::tile::{Tile, TileType};
use katakomb::shadowcast::fov::{field_of_view, DrawTile};
use katakomb::shadowcast::light::{
    average_colors, color_max, color_value, combine_light_colors, fade_color, illuminate, relight,
    reset_illumination, scale_color, LightSource,
};
use katakomb::shadowcast::shape::LightShape;
use katakomb::shadowcast::slope::Slope;
use katakomb::util::{is_in_array, LookupTables};
use katakomb::world::grid::TileGrid;

#[test]
fn two_lights_combine_by_the_stronger_channel() {
    let red = Color::new(255, 0, 0);
    let green = Color::new(0, 255, 0);
    assert_eq!(combine_light_colors(red, green), Color::new(255, 255, 0));
    assert_eq!(combine_light_colors(green, red), Color::new(255, 255, 0));
    assert_eq!(combine_light_colors(red, red), red);
    assert_eq!(
        combine_light_colors(Color::new(10, 200, 30), Color::new(20, 100, 30)),
        Color::new(20, 200, 30)
    );
    assert_eq!(combine_light_colors(Color::new(255, 255, 255), Color::new(255, 255, 255)), Color::new(255, 255, 255));
}

#[test]
fn colours_average_and_measure() {
    assert_eq!(average_colors(Color::new(10, 0, 255), Color::new(20, 1, 255)), Color::new(15, 0, 255));
    assert_eq!(color_value(&Color::new(10, 20, 31)), 20);
    assert_eq!(color_value(&Color::new(255, 255, 255)), 255);
    assert_eq!(color_max(&Color::new(10, 20, 31)), 31);
    assert_eq!(color_max(&Color::new(40, 20, 31)), 40);
}

#[test]
fn light_fades_with_the_distance() {
    let white = Color::new(255, 100, 1);
    // At the light itself nothing is lost.
    assert_eq!(scale_color(white, 0, 6), white);
    // Halfway: 255 * 0.5 = 127.5, 100 * 0.5 = 50, 1 * 0.5 = 0.5.
    assert_eq!(scale_color(white, 9, 6), Color::new(127, 50, 0));
    // At distance sqrt(2) of 6: 255 * 0.7643 = 194.9, 100 * 0.7643 = 76.4.
    assert_eq!(scale_color(white, 2, 6), Color::new(194, 76, 0));
    // At the range and beyond it nothing arrives.
    assert_eq!(scale_color(white, 36, 6), black());
    assert_eq!(scale_color(white, 50, 6), black());
    // Just inside the range: 255 * (1 - sqrt(35) / 6) = 3.56.
    assert_eq!(scale_color(white, 35, 6), Color::new(3, 1, 0));
    assert_eq!(scale_color(white, 0, 0), black());
    assert_eq!(fade_color(white, 9, 6), Color::new(127, 50, 0));
}

#[test]
fn illuminate_paints_what_the_cast_reaches() {
    let tables = LookupTables::new(6).unwrap();
    let mut grid = TileGrid::new(9, 9, 9, Tile::new(TileType::Air)).unwrap();
    grid.set(GridCoord::new(4, 4, 6), Tile::new(TileType::Rock3));
    let light = Color::new(255, 0, 100);
    illuminate(&mut grid, GridCoord::new(4, 4, 4), light, 4, &LightShape::Sphere, Point3::new(4, 4, 4), &tables);
    let at = |x, y, z| grid.get(GridCoord::new(x, y, z)).unwrap();
    assert_eq!(at(4, 4, 4).illumination_color, light);
    assert_eq!(at(4, 4, 5).illumination_color, scale_color(light, 1, 4));
    assert_eq!(at(4, 4, 5).illumination_color, Color::new(191, 0, 75));
    assert_eq!(at(4, 4, 6).illumination_color, Color::new(127, 0, 50));
    assert_eq!(at(4, 4, 6).tile_type, TileType::Rock3);
    assert_eq!(at(4, 4, 7).illumination_color, black());
    assert_eq!(at(5, 5, 5).illumination_color, scale_color(light, 3, 4));
    // On the side of the smaller indices the layers are counted from the
    // layer before the origin.
    assert_eq!(at(3, 4, 4).illumination_color, light);
    assert_eq!(at(2, 4, 4).illumination_color, scale_color(light, 1, 4));
    assert_eq!(at(8, 8, 8).illumination_color, black());
    assert!(at(4, 4, 5).illuminated());
    assert!(!at(4, 4, 7).illuminated());

    // A second light adds to the first by the stronger channel.
    let green = Color::new(0, 255, 0);
    illuminate(&mut grid, GridCoord::new(4, 4, 5), green, 4, &LightShape::Sphere, Point3::new(4, 4, 5), &tables);
    let at = |x, y, z| grid.get(GridCoord::new(x, y, z)).unwrap();
    assert_eq!(at(4, 4, 5).illumination_color, Color::new(191, 255, 75));
    assert_eq!(at(4, 4, 4).illumination_color, Color::new(255, 255, 100));

    reset_illumination(&mut grid);
    let at = |x, y, z| grid.get(GridCoord::new(x, y, z)).unwrap();
    for x in 0..9 {
        for y in 0..9 {
            for z in 0..9 {
                assert_eq!(at(x, y, z).illumination_color, black());
            }
        }
    }
    assert_eq!(at(4, 4, 6).tile_type, TileType::Rock3);
    assert_eq!(grid.dim(), (9, 9, 9));
}

#[test]
fn cast_after_illumination_is_the_same() {
    let tables = LookupTables::new(6).unwrap();
    let mut grid = TileGrid::new(9, 9, 9, Tile::new(TileType::Air)).unwrap();
    grid.set(GridCoord::new(4, 5, 6), Tile::new(TileType::Rock3));
    let origin = GridCoord::new(4, 4, 4);
    let source = Point3::new(4, 4, 4);
    let before = katakomb::shadowcast::cast::cast(&grid, origin, 4, &LightShape::Sphere, source, &tables);
    illuminate(&mut grid, origin, Color::new(9, 9, 9), 4, &LightShape::Sphere, source, &tables);
    let after = katakomb::shadowcast::cast::cast(&grid, origin, 4, &LightShape::Sphere, source, &tables);
    assert_eq!(before, after);
}

#[test]
fn field_of_view_shows_lit_blocking_tiles() {
    let tables = LookupTables::new(12).unwrap();
    let mut grid = TileGrid::new(9, 9, 9, Tile::new(TileType::Air)).unwrap();
    grid.set(GridCoord::new(4, 4, 6), Tile::new(TileType::Rock3));
    grid.set(GridCoord::new(6, 4, 4), Tile::new(TileType::Rock1));
    grid.set(GridCoord::new(4, 4, 7), Tile::new(TileType::Rock1));
    let eye = GridCoord::new(4, 4, 4);
    let source = Point3::new(4, 4, 4);
    // Nothing is lit: nothing shows.
    assert!(field_of_view(&grid, eye, 5, source, &tables).is_empty());
    illuminate(&mut grid, GridCoord::new(4, 4, 5), Color::new(200, 200, 200), 3, &LightShape::Sphere, Point3::new(4, 4, 5), &tables);
    let seen = field_of_view(&grid, eye, 5, source, &tables);
    let mut places: Vec<(usize, usize, usize)> = seen.iter().map(|t| (t.pos.x, t.pos.y, t.pos.z)).collect();
    places.sort();
    places.dedup();
    // The rock behind the rock on the axis is hidden from the eye.
    assert_eq!(places, vec![(4, 4, 6), (6, 4, 4)]);
    for t in seen.iter() {
        assert_eq!(t.dist_from_eye, 4);
        assert_eq!(t.tile, grid.get(t.pos).unwrap());
        assert!(t.tile.illuminated());
        assert!(!t.tile.tile_type.is_transparent());
    }
}

#[test]
fn far_tiles_are_drawn_first() {
    let tile = Tile::new(TileType::Rock0);
    let near = DrawTile { tile, pos: GridCoord::new(9, 9, 9), dist_from_eye: 1 };
    let far = DrawTile { tile, pos: GridCoord::new(0, 0, 0), dist_from_eye: 4 };
    assert!(far.draws_before(&near));
    assert!(!near.draws_before(&far));
    assert!(!near.draws_before(&near));
    let a = DrawTile { tile, pos: GridCoord::new(1, 5, 0), dist_from_eye: 4 };
    let b = DrawTile { tile, pos: GridCoord::new(1, 4, 9), dist_from_eye: 4 };
    let c = DrawTile { tile, pos: GridCoord::new(1, 4, 8), dist_from_eye: 4 };
    assert!(a.draws_before(&b));
    assert!(b.draws_before(&c));
    assert!(a.draws_before(&c));
    assert!(!c.draws_before(&b));
    assert!(a.draws_before(&far));
}

#[test]
fn tables_hold_distances_and_tangents() {
    let tables = LookupTables::new(12).unwrap();
    assert_eq!(tables.max_range(), 12);
    assert_eq!(tables.distance_squared(0, 0, 0), 0);
    assert_eq!(tables.distance_squared(1, 2, 3), 14);
    assert_eq!(tables.distance_squared(12, 12, 12), 432);
    assert_eq!(tables.distance_squared(3, 0, 4), 25);
    assert_eq!(tables.slope(0, 0), Slope { num: 0, den: 1 });
    assert_eq!(tables.slope(5, 2), Slope { num: 5, den: 3 });
    assert_eq!(tables.slope(12, 12), Slope { num: 12, den: 13 });
    assert!(LookupTables::new(0).is_some());
    assert!(LookupTables::new(usize::MAX).is_none());
    assert!(LookupTables::new(usize::MAX / 2).is_none());
}

#[test]
fn slopes_bound_the_cells_of_a_slice() {
    let s = Slope::from_cell(3, 1);
    assert_eq!(s, Slope { num: 3, den: 2 });
    // Three halves, in the slice at depth 2: 4.5.
    assert_eq!(s.floor_bound(2, 100), 4);
    assert_eq!(s.ceil_bound(2, 100), 5);
    assert_eq!(s.floor_bound(2, 3), 3);
    assert_eq!(s.ceil_bound(2, 4), 4);
    // In the slice at depth 1: exactly 3.
    assert_eq!(s.floor_bound(1, 100), 3);
    assert_eq!(s.ceil_bound(1, 100), 3);
    let zero = Slope { num: 0, den: 1 };
    assert_eq!(zero.floor_bound(7, 100), 0);
    assert_eq!(zero.ceil_bound(7, 100), 0);
    let diagonal = Slope { num: 1, den: 1 };
    assert_eq!(diagonal.ceil_bound(0, 100), 1);
    assert_eq!(diagonal.ceil_bound(6, 100), 7);
    let huge = Slope { num: usize::MAX, den: 1 };
    assert_eq!(huge.floor_bound(usize::MAX - 1, 17), 17);
}

#[test]
fn grid_holds_tiles() {
    let mut grid = TileGrid::new(3, 4, 5, Tile::new(TileType::Air)).unwrap();
    assert_eq!(grid.dim(), (3, 4, 5));
    assert_eq!(grid.get(GridCoord::new(2, 3, 4)), Some(Tile::new(TileType::Air)));
    assert_eq!(grid.get(GridCoord::new(3, 0, 0)), None);
    assert_eq!(grid.get(GridCoord::new(0, 4, 0)), None);
    assert_eq!(grid.get(GridCoord::new(0, 0, 5)), None);
    let candle = Tile { illumination_color: Color::new(1, 2, 3), tile_type: TileType::Candle };
    assert!(grid.set(GridCoord::new(1, 2, 3), candle));
    assert!(!grid.set(GridCoord::new(1, 2, 5), candle));
    assert_eq!(grid.get(GridCoord::new(1, 2, 3)), Some(candle));
    assert_eq!(grid.tile_at(GridCoord::new(1, 2, 3)), candle);
    assert_eq!(grid.get(GridCoord::new(1, 3, 2)), Some(Tile::new(TileType::Air)));
    assert_eq!(grid.get(GridCoord::new(3, 2, 1)), None);
    assert!(is_in_array(&grid, GridCoord::new(2, 3, 4)));
    assert!(!is_in_array(&grid, GridCoord::new(2, 4, 3)));
    assert!(TileGrid::new(usize::MAX, 2, 2, Tile::new(TileType::Air)).is_none());
    assert!(TileGrid::new(0, usize::MAX, usize::MAX, Tile::new(TileType::Air)).is_none());
    let empty = TileGrid::new(0, 4, 4, Tile::new(TileType::Air)).unwrap();
    assert_eq!(empty.dim(), (0, 4, 4));
    assert_eq!(empty.get(GridCoord::new(0, 0, 0)), None);
}

#[test]
fn tile_types() {
    assert!(TileType::Air.is_transparent());
    assert!(!TileType::Rock0.is_transparent());
    assert!(!TileType::Rock7.is_transparent());
    assert!(TileType::Candle.is_transparent());
    assert!(TileType::Grip.is_transparent());
    assert!(TileType::Rock4.collides());
    assert!(!TileType::Air.collides());
    assert!(!TileType::Mushroom.collides());
    assert!(!TileType::Stock.collides());
    assert!(TileType::Mushroom.illuminates());
    assert!(TileType::Candle.illuminates());
    assert!(!TileType::Rock0.illuminates());
    assert_eq!(TileType::Air.char_index(), 0);
    assert_eq!(TileType::Rock5.char_index(), 0x2B5);
    assert_eq!(TileType::Magazine.char_index(), 0x1AB);
    assert_eq!(TileType::Stock.char_index(), 0x319);
    assert_eq!(TileType::RecLower.quarter_turns(), 1);
    assert_eq!(TileType::RearSight.quarter_turns(), 3);
    assert_eq!(TileType::Grip.quarter_turns(), 0);
    let t = Tile::new(TileType::Rock1);
    assert!(!t.illuminated());
    assert!(Tile { illumination_color: Color::new(0, 0, 1), tile_type: TileType::Air }.illuminated());
}

#[test]
fn relight_forgets_the_light_of_before() {
    let tables = LookupTables::new(6).unwrap();
    let mut grid = TileGrid::new(9, 9, 9, Tile::new(TileType::Air)).unwrap();
    grid.set(
        GridCoord::new(0, 0, 0),
        Tile { illumination_color: Color::new(9, 9, 9), tile_type: TileType::Rock3 },
    );
    let lights = vec![
        LightSource { pos: GridCoord::new(4, 4, 4), color: Color::new(255, 0, 0) },
        LightSource { pos: GridCoord::new(4, 4, 5), color: Color::new(0, 255, 0) },
    ];
    relight(&mut grid, &lights, 3, &tables);
    let at = |x, y, z| grid.get(GridCoord::new(x, y, z)).unwrap();
    assert_eq!(at(0, 0, 0), Tile::new(TileType::Rock3));
    assert_eq!(at(4, 4, 4).illumination_color, Color::new(255, 255, 0));
    assert_eq!(at(4, 4, 5).illumination_color, Color::new(170, 255, 0));
    assert_eq!(at(4, 4, 7).illumination_color, Color::new(0, 85, 0));
    let first = grid.get(GridCoord::new(4, 4, 4)).unwrap();
    relight(&mut grid, &lights, 3, &tables);
    assert_eq!(grid.get(GridCoord::new(4, 4, 4)).unwrap(), first);
    relight(&mut grid, &Vec::new(), 3, &tables);
    assert_eq!(grid.get(GridCoord::new(4, 4, 4)).unwrap(), Tile::new(TileType::Air));
}

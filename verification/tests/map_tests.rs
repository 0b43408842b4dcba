use dungeoncrawl::map::{map_idx, GridMap, Point, TileType, NUM_TILES, SCREEN_HEIGHT, SCREEN_WIDTH};

#[test]
fn map_idx_is_row_major() {
    assert_eq!(map_idx(0, 0), 0);
    assert_eq!(map_idx(79, 0), 79);
    assert_eq!(map_idx(0, 1), 80);
    assert_eq!(map_idx(5, 3), 245);
    assert_eq!(map_idx(79, 49), 3999);
}

#[test]
fn new_map_is_all_floor_and_unrevealed() {
    let map = GridMap::new();
    assert_eq!(map.tiles.len(), NUM_TILES);
    assert_eq!(map.revealed_tiles.len(), NUM_TILES);
    assert!(map.tiles.iter().all(|tile| *tile == TileType::Floor));
    assert!(map.revealed_tiles.iter().all(|seen| !*seen));
}

#[test]
fn in_bounds_covers_exactly_the_grid() {
    let map = GridMap::new();
    assert!(map.in_bounds(Point::new(0, 0)));
    assert!(map.in_bounds(Point::new(79, 49)));
    assert!(!map.in_bounds(Point::new(-1, 0)));
    assert!(!map.in_bounds(Point::new(0, -1)));
    assert!(!map.in_bounds(Point::new(80, 0)));
    assert!(!map.in_bounds(Point::new(0, 50)));
    assert!(!map.in_bounds(Point::new(i32::MAX, i32::MIN)));
}

#[test]
fn can_enter_floor_and_exit_but_not_wall() {
    let mut map = GridMap::new();
    map.tiles[map_idx(3, 4)] = TileType::Wall;
    map.tiles[map_idx(5, 4)] = TileType::Exit;
    assert!(!map.can_enter_tile(Point::new(3, 4)));
    assert!(map.can_enter_tile(Point::new(4, 4)));
    assert!(map.can_enter_tile(Point::new(5, 4)));
    assert!(!map.can_enter_tile(Point::new(-1, 4)));
    assert!(!map.can_enter_tile(Point::new(80, 49)));
}

#[test]
fn try_idx_is_none_outside_the_grid() {
    let map = GridMap::new();
    assert_eq!(map.try_idx(Point::new(5, 3)), Some(245));
    assert_eq!(map.try_idx(Point::new(79, 49)), Some(3999));
    assert_eq!(map.try_idx(Point::new(80, 49)), None);
    assert_eq!(map.try_idx(Point::new(0, -1)), None);
}

#[test]
fn coordinates_round_trip_over_the_whole_grid() {
    let map = GridMap::new();
    for y in 0..SCREEN_HEIGHT {
        for x in 0..SCREEN_WIDTH {
            let point = Point::new(x, y);
            let idx = map.point2d_to_index(point);
            assert_eq!(idx, map_idx(x, y));
            assert_eq!(map.index_to_point2d(idx), point);
        }
    }
    for idx in 0..NUM_TILES {
        assert_eq!(map.point2d_to_index(map.index_to_point2d(idx)), idx);
    }
}

#[test]
fn index_to_point_beyond_the_grid() {
    let map = GridMap::new();
    assert_eq!(map.index_to_point2d(4000), Point::new(0, 50));
    assert_eq!(map.index_to_point2d(4085), Point::new(5, 51));
}

#[test]
fn dimensions_are_the_screen() {
    let map = GridMap::new();
    assert_eq!(map.dimensions(), Point::new(80, 50));
}

#[test]
fn valid_exit_adds_the_delta() {
    let mut map = GridMap::new();
    map.tiles[map_idx(11, 10)] = TileType::Wall;
    let here = Point::new(10, 10);
    assert_eq!(map.valid_exit(here, Point::new(-1, 0)), Some(map_idx(9, 10)));
    assert_eq!(map.valid_exit(here, Point::new(1, 0)), None);
    assert_eq!(map.valid_exit(here, Point::new(0, 1)), Some(map_idx(10, 11)));
    assert_eq!(map.valid_exit(Point::new(0, 0), Point::new(-1, 0)), None);
    assert_eq!(map.valid_exit(Point::new(i32::MAX, 0), Point::new(1, 0)), None);
}

#[test]
fn exits_come_west_east_north_south() {
    let map = GridMap::new();
    let exits = map.get_available_exits(map_idx(10, 10));
    assert_eq!(
        exits,
        vec![map_idx(9, 10), map_idx(11, 10), map_idx(10, 9), map_idx(10, 11)]
    );
}

#[test]
fn exits_stop_at_the_border_and_at_walls() {
    let mut map = GridMap::new();
    assert_eq!(map.get_available_exits(0), vec![1, 80]);
    assert_eq!(map.get_available_exits(3999), vec![3998, 3919]);
    map.tiles[1] = TileType::Wall;
    map.tiles[80] = TileType::Exit;
    assert_eq!(map.get_available_exits(0), vec![80]);
}

#[test]
fn exits_of_an_index_beyond_the_grid() {
    let map = GridMap::new();
    assert_eq!(map.get_available_exits(4000), vec![3920]);
    assert_eq!(map.get_available_exits(4080), Vec::<usize>::new());
}

#[test]
fn every_tile_but_floor_is_opaque() {
    let mut map = GridMap::new();
    map.tiles[7] = TileType::Wall;
    map.tiles[8] = TileType::Exit;
    assert!(!map.is_opaque(6));
    assert!(map.is_opaque(7));
    assert!(map.is_opaque(8));
}

use roguelike::grid::{empty_tiles, lay_walk};
use roguelike::map::{walk_from_draws, walk_moves};
use roguelike::{
    classify, direction_from_draw, generate_main_path, Direction, LevelMap, MapError, MapTile,
    PathWalker,
};

fn check_map(map: &LevelMap) {
    let w = map.width;
    let h = map.height;
    assert_eq!(map.map_tiles.len(), (w * h) as usize);
    let mut entrances = 0;
    let mut exits = 0;
    for (k, tile) in map.map_tiles.iter().enumerate() {
        let k = k as u32;
        assert_eq!(tile.pos(), (k % w, k / w));
        match tile {
            MapTile::Entrance { pos, .. } => {
                entrances += 1;
                assert_eq!(pos.1, 0);
                assert_eq!(*pos, map.start);
            }
            MapTile::Exit { pos, .. } => {
                exits += 1;
                assert_eq!(pos.1, h - 1);
                assert_eq!(*pos, map.end);
            }
            MapTile::Path { pos, from, to } => {
                assert!(pos.0 < w);
                assert!(!(*from == Direction::Left && *to == Direction::Right));
                assert!(!(*from == Direction::Right && *to == Direction::Left));
            }
            MapTile::Empty { .. } => {}
        }
    }
    assert_eq!(entrances, 1);
    assert_eq!(exits, 1);
}

#[test]
fn generate_map() {
    let map = LevelMap::new(5, 7).unwrap();
    for i in 0..map.height {
        let mut line = String::new();
        for j in 0..map.width {
            line.push_str(&format!(" {:?} ", map.map_tiles[(i * map.width + j) as usize]));
        }
        println!("{}", line);
    }
}

#[test]
fn generated_maps_have_one_tile_per_cell() {
    for w in 1..7u32 {
        for h in 2..9u32 {
            let map = LevelMap::new(w, h).unwrap();
            assert_eq!(map.width, w);
            assert_eq!(map.height, h);
            assert_eq!(map.map_tiles.len(), (w * h) as usize);
        }
    }
}

#[test]
fn generated_maps_keep_their_invariants() {
    for _ in 0..300 {
        let map = LevelMap::new(5, 7).unwrap();
        check_map(&map);
    }
    for _ in 0..100 {
        check_map(&LevelMap::new(1, 2).unwrap());
        check_map(&LevelMap::new(2, 10).unwrap());
    }
}

#[test]
fn generate_main_path_from_a_given_start() {
    for col in 0..4u32 {
        let (end, tiles) = generate_main_path(4, 6, (col, 0)).unwrap();
        assert_eq!(end.1, 5);
        assert_eq!(tiles.len(), 24);
        assert!(matches!(tiles[col as usize], MapTile::Entrance { .. }));
        assert!(matches!(tiles[(5 * 4 + end.0) as usize], MapTile::Exit { .. }));
    }
}

#[test]
fn boundary_rejection() {
    assert_eq!(LevelMap::new(0, 5).unwrap_err(), MapError::InvalidConfig);
    assert_eq!(LevelMap::new(3, 1).unwrap_err(), MapError::InvalidConfig);
    assert_eq!(LevelMap::new(3, 0).unwrap_err(), MapError::InvalidConfig);
    let dirs = vec![Direction::Down];
    assert_eq!(LevelMap::from_moves(0, 5, 0, &dirs).unwrap_err(), MapError::InvalidConfig);
    assert_eq!(LevelMap::from_moves(3, 1, 0, &dirs).unwrap_err(), MapError::InvalidConfig);
    assert_eq!(LevelMap::from_moves(3, 3, 3, &dirs).unwrap_err(), MapError::InvalidConfig);
}

#[test]
fn concrete_walk_right_down_down() {
    let dirs = vec![Direction::Right, Direction::Down, Direction::Down];
    let map = LevelMap::from_moves(3, 3, 0, &dirs).unwrap();
    assert_eq!(map.start, (0, 0));
    assert_eq!(map.end, (1, 2));
    let t = &map.map_tiles;
    assert_eq!(t.len(), 9);
    assert_eq!(t[0], MapTile::Entrance { pos: (0, 0), to: Direction::Right });
    assert_eq!(
        t[1],
        MapTile::Path { pos: (1, 0), from: Direction::Right, to: Direction::Down }
    );
    assert_eq!(t[2], MapTile::Empty { pos: (2, 0) });
    assert_eq!(t[3], MapTile::Empty { pos: (0, 1) });
    assert_eq!(
        t[4],
        MapTile::Path { pos: (1, 1), from: Direction::Down, to: Direction::Down }
    );
    assert_eq!(t[5], MapTile::Empty { pos: (2, 1) });
    assert_eq!(t[6], MapTile::Empty { pos: (0, 2) });
    assert_eq!(t[7], MapTile::Exit { pos: (1, 2), from: Direction::Down });
    assert_eq!(t[8], MapTile::Empty { pos: (2, 2) });
    check_map(&map);
}

#[test]
fn stalls_are_skipped_and_extra_moves_ignored() {
    let dirs = vec![
        Direction::Left,
        Direction::Down,
        Direction::Right,
        Direction::Left,
        Direction::Down,
        Direction::Right,
    ];
    let map = LevelMap::from_moves(3, 3, 0, &dirs).unwrap();
    assert_eq!(map.end, (1, 2));
    assert_eq!(map.map_tiles[0], MapTile::Entrance { pos: (0, 0), to: Direction::Down });
    assert_eq!(
        map.map_tiles[3],
        MapTile::Path { pos: (0, 1), from: Direction::Down, to: Direction::Right }
    );
    assert_eq!(
        map.map_tiles[4],
        MapTile::Path { pos: (1, 1), from: Direction::Right, to: Direction::Down }
    );
    assert_eq!(map.map_tiles[7], MapTile::Exit { pos: (1, 2), from: Direction::Down });
    check_map(&map);
}

#[test]
fn unfinished_walk_is_an_error() {
    let dirs = vec![Direction::Right, Direction::Down];
    assert_eq!(LevelMap::from_moves(3, 3, 0, &dirs).unwrap_err(), MapError::WalkUnfinished);
    assert_eq!(LevelMap::from_moves(3, 3, 0, &vec![]).unwrap_err(), MapError::WalkUnfinished);
}

#[test]
fn reversal_is_a_stall() {
    let mut walker = PathWalker::new(4, 3, (0, 0));
    assert!(walker.step(Direction::Right));
    assert_eq!(walker.current, (1, 0));
    assert_eq!(walker.prev_direction, Direction::Right);
    assert!(!walker.step(Direction::Left));
    assert_eq!(walker.current, (1, 0));
    assert_eq!(walker.prev_direction, Direction::Right);
    assert_eq!(walker.records.len(), 1);
    assert!(walker.step(Direction::Down));
    assert!(walker.step(Direction::Left));
    assert_eq!(walker.current, (0, 1));
    assert!(!walker.step(Direction::Right));
    assert!(!walker.step(Direction::Left));
    assert_eq!(walker.current, (0, 1));
}

#[test]
fn walker_stays_on_the_grid() {
    let mut walker = PathWalker::new(2, 3, (1, 0));
    assert!(!walker.step(Direction::Right));
    assert!(walker.step(Direction::Left));
    assert!(!walker.step(Direction::Left));
    assert!(walker.step(Direction::Down));
    assert!(walker.step(Direction::Down));
    assert!(walker.is_done());
    assert!(!walker.step(Direction::Down));
    let (end, walk) = walker.finish();
    assert_eq!(end, (0, 2));
    assert_eq!(
        walk,
        vec![
            MapTile::Entrance { pos: (1, 0), to: Direction::Left },
            MapTile::Path { pos: (0, 0), from: Direction::Left, to: Direction::Down },
            MapTile::Path { pos: (0, 1), from: Direction::Down, to: Direction::Down },
            MapTile::Exit { pos: (0, 2), from: Direction::Down },
        ]
    );
}

#[test]
fn draws_pick_directions() {
    assert_eq!(direction_from_draw(0), Direction::Down);
    assert_eq!(direction_from_draw(1), Direction::Right);
    assert_eq!(direction_from_draw(2), Direction::Left);
    assert_eq!(direction_from_draw(5), Direction::Left);
    assert_eq!(direction_from_draw(u32::MAX), Direction::Down);
}

#[test]
fn classification_is_repeatable() {
    let walk = vec![
        MapTile::Entrance { pos: (2, 0), to: Direction::Down },
        MapTile::Path { pos: (2, 1), from: Direction::Down, to: Direction::Left },
        MapTile::Path { pos: (1, 1), from: Direction::Left, to: Direction::Down },
        MapTile::Exit { pos: (1, 2), from: Direction::Down },
    ];
    let first = classify(3, 3, &walk).unwrap();
    let second = classify(3, 3, &walk).unwrap();
    assert_eq!(first, second);
    let mut again = first.clone();
    lay_walk(&mut again, 3, 3, &walk).unwrap();
    assert_eq!(again, first);
    assert_eq!(first[2], walk[0]);
    assert_eq!(first[5], walk[1]);
    assert_eq!(first[4], walk[2]);
    assert_eq!(first[7], walk[3]);
    assert_eq!(first[0], MapTile::Empty { pos: (0, 0) });
}

#[test]
fn classification_rejects_cells_off_the_grid() {
    let walk = vec![
        MapTile::Entrance { pos: (0, 0), to: Direction::Down },
        MapTile::Exit { pos: (3, 1), from: Direction::Down },
    ];
    assert_eq!(classify(3, 3, &walk).unwrap_err(), MapError::OutOfGrid);
    let walk = vec![MapTile::Exit { pos: (0, 3), from: Direction::Down }];
    assert_eq!(classify(3, 3, &walk).unwrap_err(), MapError::OutOfGrid);
    let mut grid = empty_tiles(3, 3);
    assert_eq!(lay_walk(&mut grid, 3, 3, &walk).unwrap_err(), MapError::OutOfGrid);
    assert_eq!(grid, empty_tiles(3, 3));
}

#[test]
fn empty_grid_is_row_major() {
    let grid = empty_tiles(2, 3);
    assert_eq!(
        grid,
        vec![
            MapTile::Empty { pos: (0, 0) },
            MapTile::Empty { pos: (1, 0) },
            MapTile::Empty { pos: (0, 1) },
            MapTile::Empty { pos: (1, 1) },
            MapTile::Empty { pos: (0, 2) },
            MapTile::Empty { pos: (1, 2) },
        ]
    );
}

#[test]
fn add_path_replaces_tiles() {
    let dirs = vec![Direction::Down];
    let mut map = LevelMap::from_moves(1, 2, 0, &dirs).unwrap();
    assert_eq!(map.map_tiles.len(), 2);
    map.add_path(vec![MapTile::Empty { pos: (0, 0) }]);
    assert_eq!(map.map_tiles, vec![MapTile::Empty { pos: (0, 0) }]);
    assert_eq!(map.end, (0, 1));
}

#[test]
fn draws_lay_out_the_concrete_walk() {
    // 7 % 3 == 1 picks Right, 3 % 3 == 0 picks Down; the start column is 6 % 3
    let draws = vec![7, 3, 0];
    let map = LevelMap::from_draws(3, 3, 6, &draws).unwrap();
    let by_moves = LevelMap::from_moves(
        3,
        3,
        0,
        &vec![Direction::Right, Direction::Down, Direction::Down],
    )
    .unwrap();
    assert_eq!(map.start, (0, 0));
    assert_eq!(map.end, (1, 2));
    assert_eq!(map.map_tiles, by_moves.map_tiles);
    assert_eq!(map.map_tiles[7], MapTile::Exit { pos: (1, 2), from: Direction::Down });
    check_map(&map);
}

#[test]
fn draws_that_reverse_or_leave_the_grid_are_stalls() {
    // Right, then Left (a reversal), Down, Right off the edge, Left, Down
    let draws = vec![1, 2, 0, 1, 2, 0];
    let (end, tiles) = walk_from_draws(2, 3, (0, 0), &draws).unwrap();
    assert_eq!(end, (0, 2));
    assert_eq!(
        tiles,
        vec![
            MapTile::Entrance { pos: (0, 0), to: Direction::Right },
            MapTile::Path { pos: (1, 0), from: Direction::Right, to: Direction::Down },
            MapTile::Path { pos: (0, 1), from: Direction::Left, to: Direction::Down },
            MapTile::Path { pos: (1, 1), from: Direction::Down, to: Direction::Left },
            MapTile::Exit { pos: (0, 2), from: Direction::Down },
            MapTile::Empty { pos: (1, 2) },
        ]
    );
}

#[test]
fn too_few_draws_leave_the_walk_unfinished() {
    assert_eq!(walk_from_draws(3, 3, (1, 0), &vec![0]).unwrap_err(), MapError::WalkUnfinished);
    assert_eq!(walk_from_draws(3, 3, (1, 0), &vec![]).unwrap_err(), MapError::WalkUnfinished);
    assert_eq!(
        LevelMap::from_draws(3, 3, 0, &vec![1, 1, 1]).unwrap_err(),
        MapError::WalkUnfinished
    );
    assert_eq!(LevelMap::from_draws(0, 3, 0, &vec![0, 0]).unwrap_err(), MapError::InvalidConfig);
    assert_eq!(LevelMap::from_draws(3, 1, 0, &vec![0, 0]).unwrap_err(), MapError::InvalidConfig);
}

#[test]
fn same_draws_give_the_same_map() {
    let draws: Vec<u32> = (0..200u32).map(|i| i.wrapping_mul(2654435761)).collect();
    let a = walk_from_draws(4, 6, (2, 0), &draws).unwrap();
    let b = walk_from_draws(4, 6, (2, 0), &draws).unwrap();
    assert_eq!(a, b);
    let dirs: Vec<Direction> = draws.iter().map(|d| direction_from_draw(*d)).collect();
    assert_eq!(walk_moves(4, 6, (2, 0), &dirs).unwrap(), a);
}

#[test]
fn cloned_map_is_equal() {
    let map = LevelMap::new(4, 4).unwrap();
    let copy = map.clone();
    assert_eq!(copy.width, map.width);
    assert_eq!(copy.height, map.height);
    assert_eq!(copy.start, map.start);
    assert_eq!(copy.end, map.end);
    assert_eq!(copy.map_tiles, map.map_tiles);
}

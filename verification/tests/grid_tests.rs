use labyrinth::grid::{Grid, GridError, GridKind, TileFeature, TileState, MAX_SIZE};

fn fresh(size: usize) -> Grid {
    Grid::new(GridKind::Squares, size, false).unwrap()
}

fn named(name: &str) -> TileFeature {
    TileFeature::Named(name.to_string())
}

#[test]
fn new_grid_is_all_off() {
    let grid = fresh(4);
    for x in 0..4 {
        for y in 0..4 {
            assert_eq!(grid.state_tile(x, y), TileState::Off);
            assert!(grid.tile(x, y).unwrap().features.is_empty());
        }
    }
    assert_eq!(grid.size().x, 4);
    assert_eq!(grid.size().y, 4);
    assert_eq!(grid.kind(), GridKind::Squares);
}

#[test]
fn new_grid_of_one_tile() {
    let grid = fresh(1);
    assert_eq!(grid.state_tile(0, 0), TileState::Off);
    assert_eq!(grid.state_tile(1, 0), TileState::Void);
    assert_eq!(grid.state_tile(0, 1), TileState::Void);
}

#[test]
fn new_grid_starts_off_whatever_the_flag() {
    let grid = Grid::new(GridKind::Squares, 3, true).unwrap();
    for x in 0..3 {
        for y in 0..3 {
            assert_eq!(grid.state_tile(x, y), TileState::Off);
        }
    }
}

#[test]
fn new_grid_rejects_zero() {
    assert_eq!(Grid::new(GridKind::Squares, 0, false).err(), Some(GridError::InvalidSize));
}

#[test]
fn new_grid_rejects_sides_beyond_the_coordinates() {
    assert_eq!(
        Grid::new(GridKind::Squares, MAX_SIZE + 1, false).err(),
        Some(GridError::InvalidSize)
    );
    assert_eq!(
        Grid::new(GridKind::Squares, usize::MAX, false).err(),
        Some(GridError::InvalidSize)
    );
}

#[test]
fn state_tile_is_void_beyond_the_bounds() {
    let grid = fresh(3);
    assert_eq!(grid.state_tile(-1, 0), TileState::Void);
    assert_eq!(grid.state_tile(0, -1), TileState::Void);
    assert_eq!(grid.state_tile(3, 0), TileState::Void);
    assert_eq!(grid.state_tile(0, 3), TileState::Void);
    assert_eq!(grid.state_tile(3, 3), TileState::Void);
    assert_eq!(grid.state_tile(i32::MIN, i32::MIN), TileState::Void);
    assert_eq!(grid.state_tile(i32::MAX, i32::MAX), TileState::Void);
    assert_eq!(grid.state_tile(i32::MAX, 1), TileState::Void);
    assert_eq!(grid.state_tile(1, i32::MIN), TileState::Void);
    assert_eq!(grid.state_tile(1_000_000, -1_000_000), TileState::Void);
}

#[test]
fn state_tile_answers_the_same_each_time() {
    let mut grid = fresh(3);
    grid.update_tile(1, 2, true, vec![]);
    for x in -2..5 {
        for y in -2..5 {
            let first = grid.state_tile(x, y);
            let second = grid.state_tile(x, y);
            let third = grid.state_tile(x, y);
            assert_eq!(first, second);
            assert_eq!(second, third);
        }
    }
}

#[test]
fn update_tile_then_state_tile() {
    let mut grid = fresh(3);
    grid.update_tile(1, 2, true, vec![]);
    assert_eq!(grid.state_tile(1, 2), TileState::On);
    grid.update_tile(1, 2, false, vec![]);
    assert_eq!(grid.state_tile(1, 2), TileState::Off);
    grid.update_tile(0, 0, true, vec![named("Entrance")]);
    assert_eq!(grid.state_tile(0, 0), TileState::On);
    grid.update_tile(2, 2, true, vec![]);
    assert_eq!(grid.state_tile(2, 2), TileState::On);
}

#[test]
fn update_tile_leaves_the_other_tiles() {
    let mut grid = fresh(3);
    grid.update_tile(1, 2, true, vec![named("Exit")]);
    for x in 0..3 {
        for y in 0..3 {
            if (x, y) != (1, 2) {
                assert_eq!(grid.state_tile(x, y), TileState::Off);
                assert!(grid.tile(x, y).unwrap().features.is_empty());
            }
        }
    }
    // Row-major storage: (1, 2) and (2, 1) are different tiles.
    assert_eq!(grid.state_tile(2, 1), TileState::Off);
    assert_eq!(grid.state_tile(1, 2), TileState::On);
}

#[test]
fn update_tile_replaces_the_features() {
    let mut grid = fresh(2);
    grid.update_tile(1, 0, true, vec![named("Entrance"), named("Exit")]);
    assert!(grid.has_feature(1, 0, &named("Entrance")));
    assert!(grid.has_feature(1, 0, &named("Exit")));
    grid.update_tile(1, 0, true, vec![named("Exit")]);
    assert!(!grid.has_feature(1, 0, &named("Entrance")));
    assert!(grid.has_feature(1, 0, &named("Exit")));
    grid.update_tile(1, 0, true, vec![]);
    assert!(!grid.has_feature(1, 0, &named("Exit")));
    assert!(grid.tile(1, 0).unwrap().features.is_empty());
}

#[test]
fn update_tile_keeps_each_feature_once() {
    let mut grid = fresh(2);
    grid.update_tile(
        0,
        1,
        false,
        vec![named("Exit"), named("Entrance"), named("Exit"), named("Exit"), named("Entrance")],
    );
    let tile = grid.tile(0, 1).unwrap();
    assert_eq!(tile.state, TileState::Off);
    assert_eq!(tile.features, vec![named("Exit"), named("Entrance")]);
}

#[test]
fn has_feature_tells_names_apart() {
    let mut grid = fresh(2);
    grid.update_tile(0, 0, true, vec![named("Entrance")]);
    assert!(grid.has_feature(0, 0, &named("Entrance")));
    assert!(!grid.has_feature(0, 0, &named("Entranc")));
    assert!(!grid.has_feature(0, 0, &named("entrance")));
    assert!(!grid.has_feature(0, 0, &named("")));
    assert!(!grid.has_feature(1, 0, &named("Entrance")));
    assert!(!grid.has_feature(-1, 0, &named("Entrance")));
    assert!(!grid.has_feature(2, 2, &named("Entrance")));
}

#[test]
fn tile_is_none_beyond_the_bounds() {
    let grid = fresh(2);
    assert!(grid.tile(0, 0).is_some());
    assert!(grid.tile(1, 1).is_some());
    assert!(grid.tile(2, 0).is_none());
    assert!(grid.tile(0, 2).is_none());
    assert!(grid.tile(-1, 0).is_none());
    assert!(grid.tile(0, -1).is_none());
}

#[test]
fn feature_clone_keeps_the_name() {
    let feature = named("Entrance");
    assert_eq!(feature.clone(), feature);
}

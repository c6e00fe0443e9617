use tp_rust_ereea::cell::Cell;
use tp_rust_ereea::pathfinding::{
    find_exploration_target, find_nearest, find_nearest_with_access_check, is_blocked,
    next_step_towards, Visibility,
};
use tp_rust_ereea::world::WorldMap;

/// A `w` by `h` map whose inside is empty (the fixed science site at (6, 5)
/// aside, when it lies inside).
fn open_map(w: usize, h: usize) -> WorldMap {
    WorldMap::new(w, h, &vec![vec![500; w]; h])
}

#[test]
fn nearest_science_found_on_open_map() {
    let map = open_map(10, 10);
    assert_eq!(map.grid[5][6], Cell::Science);
    assert_eq!(find_nearest(1, 1, &map, Cell::Science, false), Some((6, 5)));
}

#[test]
fn nearest_prefers_shorter_then_neighbour_order() {
    let mut map = open_map(12, 12);
    map.grid[5][6] = Cell::Empty;
    // two minerals at the same distance from (5, 5): (5, 7) below, (7, 5) right
    map.grid[7][5] = Cell::Mineral;
    map.grid[5][7] = Cell::Mineral;
    assert_eq!(find_nearest(5, 5, &map, Cell::Mineral, true), Some((5, 7)));
    // a nearer one wins
    map.grid[5][6] = Cell::Mineral;
    assert_eq!(find_nearest(5, 5, &map, Cell::Mineral, true), Some((6, 5)));
}

#[test]
fn nearest_start_cell_counts() {
    let map = open_map(10, 10);
    assert_eq!(find_nearest(6, 5, &map, Cell::Science, false), Some((6, 5)));
}

#[test]
fn legacy_search_ignores_unlocked_zones() {
    let mut map = open_map(10, 10);
    map.grid[2][3] = Cell::Mineral;
    map.zones[0].unlock();
    assert_eq!(find_nearest(1, 1, &map, Cell::Mineral, false), None);
    assert_eq!(find_nearest_with_access_check(1, 1, &map, Cell::Mineral, false), Some((3, 2)));
    assert_eq!(find_nearest(1, 1, &map, Cell::Mineral, true), Some((3, 2)));
}

#[test]
fn locked_mineral_found_after_unlock() {
    let mut map = open_map(10, 10);
    map.grid[7][7] = Cell::Mineral;
    assert_eq!(find_nearest_with_access_check(1, 1, &map, Cell::Mineral, false), None);
    assert!(map.unlock_zone_with_science((7, 7)).is_some());
    assert_eq!(find_nearest_with_access_check(1, 1, &map, Cell::Mineral, false), Some((7, 7)));
}

#[test]
fn nearest_none_when_walled_off() {
    let mut map = open_map(10, 10);
    for y in 0..10 {
        map.grid[y][4] = Cell::Obstacle;
    }
    map.grid[5][6] = Cell::Empty;
    map.grid[3][7] = Cell::Science;
    assert_eq!(find_nearest(1, 1, &map, Cell::Science, true), None);
}

#[test]
fn next_step_follows_shortest_path() {
    let map = open_map(10, 10);
    assert_eq!(next_step_towards(1, 1, 3, 1, &map, false), Some((1, 0)));
    assert_eq!(next_step_towards(3, 1, 1, 1, &map, false), Some((-1, 0)));
    assert_eq!(next_step_towards(1, 3, 1, 1, &map, false), Some((0, -1)));
    // both down and right are shortest: down comes first
    assert_eq!(next_step_towards(1, 1, 2, 2, &map, false), Some((0, 1)));
}

#[test]
fn next_step_none_at_target_or_unreachable() {
    let mut map = open_map(10, 10);
    assert_eq!(next_step_towards(2, 2, 2, 2, &map, false), None);
    for y in 0..10 {
        map.grid[y][4] = Cell::Obstacle;
    }
    assert_eq!(next_step_towards(1, 1, 7, 7, &map, true), None);
    assert_eq!(next_step_towards(1, 1, 50, 50, &map, true), None);
}

#[test]
fn next_step_goes_round_an_obstacle() {
    let mut map = open_map(10, 10);
    map.grid[1][2] = Cell::Obstacle;
    map.grid[2][2] = Cell::Obstacle;
    // from (1,1) to (3,1): straight right is blocked, go down first
    assert_eq!(next_step_towards(1, 1, 3, 1, &map, false), Some((0, 1)));
}

#[test]
fn next_step_stays_on_open_ground() {
    let mut map = open_map(10, 10);
    map.grid[2][1] = Cell::Obstacle;
    map.grid[1][3] = Cell::Obstacle;
    for (sx, sy, tx, ty) in [(1, 1, 8, 8), (3, 3, 1, 8), (8, 1, 1, 1), (5, 5, 2, 1)] {
        if let Some((dx, dy)) = next_step_towards(sx, sy, tx, ty, &map, false) {
            let nx = (sx as isize + dx) as usize;
            let ny = (sy as isize + dy) as usize;
            assert!(nx < map.width && ny < map.height);
            assert!(map.grid[ny][nx] != Cell::Wall && map.grid[ny][nx] != Cell::Obstacle);
            assert_eq!(dx.abs() + dy.abs(), 1);
        } else {
            panic!("a path exists");
        }
    }
}

#[test]
fn next_step_is_repeatable() {
    let mut map = open_map(12, 9);
    map.grid[4][4] = Cell::Obstacle;
    let first = next_step_towards(2, 4, 8, 4, &map, false);
    for _ in 0..5 {
        assert_eq!(next_step_towards(2, 4, 8, 4, &map, false), first);
    }
    assert!(first.is_some());
}

#[test]
fn next_step_may_end_on_hidden_target_in_unlocked_zone() {
    let mut map = open_map(10, 10);
    map.grid[1][2] = Cell::Mineral;
    assert_eq!(next_step_towards(1, 1, 2, 1, &map, false), None);
    map.zones[0].unlock();
    assert_eq!(next_step_towards(1, 1, 2, 1, &map, false), Some((1, 0)));
}

#[test]
fn next_step_onto_target_obstacle_in_unlocked_zone() {
    let mut map = open_map(10, 10);
    map.grid[1][2] = Cell::Obstacle;
    map.zones[0].unlock();
    assert_eq!(next_step_towards(1, 1, 2, 1, &map, false), Some((1, 0)));
}

#[test]
fn blocking_rule_by_mode() {
    let mut map = open_map(10, 10);
    map.grid[2][2] = Cell::Energy;
    assert!(is_blocked(&map, Visibility::PerZone, 2, 2, false));
    assert!(!is_blocked(&map, Visibility::PerZone, 2, 2, true));
    map.zones[0].unlock();
    assert!(!is_blocked(&map, Visibility::PerZone, 2, 2, false));
    assert!(is_blocked(&map, Visibility::GlobalOnly, 2, 2, false));
    assert!(is_blocked(&map, Visibility::PerZone, 0, 0, true));
    assert!(!is_blocked(&map, Visibility::GlobalOnly, 3, 3, false));
}

#[test]
fn exploration_target_is_farthest_reachable_empty_cell() {
    let map = open_map(10, 10);
    assert_eq!(find_exploration_target(1, 1, &map, false), Some((8, 8)));
    assert_eq!(find_exploration_target(5, 5, &map, false), Some((1, 1)));
}

#[test]
fn exploration_target_ties_go_to_scan_order() {
    let mut map = open_map(11, 11);
    map.grid[5][6] = Cell::Empty;
    assert_eq!(find_exploration_target(5, 5, &map, false), Some((1, 1)));
    map.grid[1][1] = Cell::Obstacle;
    assert_eq!(find_exploration_target(5, 5, &map, false), Some((9, 1)));
}

#[test]
fn exploration_target_respects_walls_and_hidden_resources() {
    let mut map = open_map(10, 10);
    for y in 0..10 {
        map.grid[y][4] = Cell::Obstacle;
    }
    assert_eq!(find_exploration_target(1, 1, &map, false), Some((3, 8)));
    map.grid[5][4] = Cell::Mineral;
    assert_eq!(find_exploration_target(1, 1, &map, false), Some((3, 8)));
    assert_eq!(find_exploration_target(1, 1, &map, true), Some((8, 8)));
}

#[test]
fn exploration_target_none_without_empty_cell() {
    let mut map = open_map(3, 3);
    assert_eq!(find_exploration_target(1, 1, &map, false), Some((1, 1)));
    map.grid[1][1] = Cell::Mineral;
    assert_eq!(find_exploration_target(1, 1, &map, false), None);
}

use tp_rust_ereea::automation::{automate_all_robots, automate_robot, handle_intent, Intent};
use tp_rust_ereea::cell::Cell;
use tp_rust_ereea::config::Config;
use tp_rust_ereea::game_state::GameState;
use tp_rust_ereea::inventory::{Inventory, ResourceType};
use tp_rust_ereea::robot::{Robot, RobotType};
use tp_rust_ereea::station::Station;
use tp_rust_ereea::terrain::generate_noise;
use tp_rust_ereea::world::WorldMap;
use tp_rust_ereea::zone::Zone;

fn open_map(w: usize, h: usize) -> WorldMap {
    WorldMap::new(w, h, &vec![vec![500; w]; h])
}

fn robot(x: usize, y: usize, capacity: usize, robot_type: RobotType) -> Robot {
    Robot {
        x,
        y,
        inventory: Inventory::new(),
        inventory_capacity: capacity,
        collected_science_positions: vec![],
        robot_type,
    }
}

fn station(x: usize, y: usize) -> Station {
    Station { x, y, inventory: Inventory::new() }
}

#[test]
fn zone_basics() {
    let mut z = Zone::new(3, "Sud-Est".to_string(), 5, 9, 5, 9);
    assert!(!z.is_unlocked);
    assert_eq!(z.resource_count, (0, 0));
    assert!(z.contains_point(5, 9));
    assert!(!z.contains_point(4, 9));
    assert!(!z.contains_point(5, 10));
    z.unlock();
    assert!(z.is_unlocked);
    assert_eq!(z.name, "Sud-Est");
}

#[test]
fn generate_noise_classifies_samples() {
    let samples = vec![
        vec![0, 0, 0, 0, 0],
        vec![0, -400, -100, 100, 0],
        vec![0, 300, 199, -300, 0],
        vec![0, 0, 0, 0, 0],
    ];
    let grid = generate_noise(5, 4, &samples);
    assert_eq!(grid[0], vec![Cell::Wall; 5]);
    assert_eq!(grid[1], vec![Cell::Wall, Cell::Obstacle, Cell::Energy, Cell::Mineral, Cell::Wall]);
    assert_eq!(grid[2], vec![Cell::Wall, Cell::Empty, Cell::Mineral, Cell::Energy, Cell::Wall]);
}

#[test]
fn generate_noise_lays_science_on_empty_sites() {
    let mut samples = vec![vec![500; 10]; 10];
    let grid = generate_noise(10, 10, &samples);
    assert_eq!(grid[5][6], Cell::Science);
    samples[5][6] = 100;
    let grid = generate_noise(10, 10, &samples);
    assert_eq!(grid[5][6], Cell::Mineral);
}

#[test]
fn new_map_has_obstacle_ring_and_quadrants() {
    let map = open_map(10, 7);
    assert_eq!(map.grid.len(), 7);
    assert_eq!(map.grid[0][3], Cell::Obstacle);
    assert_eq!(map.grid[6][3], Cell::Obstacle);
    assert_eq!(map.grid[3][0], Cell::Obstacle);
    assert_eq!(map.grid[3][9], Cell::Obstacle);
    assert_eq!(map.grid[3][3], Cell::Empty);
    assert_eq!(map.current_turn, 0);
    let bounds: Vec<(usize, usize, usize, usize)> =
        map.zones.iter().map(|z| (z.min_x, z.max_x, z.min_y, z.max_y)).collect();
    assert_eq!(bounds, vec![(0, 4, 0, 2), (5, 9, 0, 2), (0, 4, 3, 6), (5, 9, 3, 6)]);
    let names: Vec<&str> = map.zones.iter().map(|z| z.name.as_str()).collect();
    assert_eq!(names, vec!["Nord-Ouest", "Nord-Est", "Sud-Ouest", "Sud-Est"]);
}

#[test]
fn every_cell_in_exactly_one_zone() {
    for (w, h) in [(2, 2), (3, 5), (10, 10), (50, 15)] {
        let map = open_map(w, h);
        for y in 0..h {
            for x in 0..w {
                let n = map.zones.iter().filter(|z| z.contains_point(x, y)).count();
                assert_eq!(n, 1, "cell ({x}, {y}) of {w}x{h}");
            }
        }
    }
}

#[test]
fn new_map_tallies_resources_per_zone() {
    let mut samples = vec![vec![500; 10]; 10];
    samples[1][1] = 100;
    samples[2][2] = 100;
    samples[7][7] = -100;
    let map = WorldMap::new(10, 10, &samples);
    assert_eq!(map.zones[0].resource_count, (2, 0));
    assert_eq!(map.zones[3].resource_count, (0, 1));
    assert_eq!(map.zones[1].resource_count, (0, 0));
}

#[test]
fn zone_lookup_and_access() {
    let mut map = open_map(10, 10);
    assert_eq!(map.get_zone_at(7, 2).map(|z| z.id), Some(1));
    assert!(map.get_zone_at(10, 2).is_none());
    assert!(!map.is_resource_accessible(7, 2));
    assert_eq!(map.zone_stats(), (0, 4));
    let msg = map.unlock_zone_with_science((7, 2));
    assert_eq!(msg, Some("Zone Nord-Est débloquée".to_string()));
    assert!(map.is_resource_accessible(7, 2));
    assert_eq!(map.unlock_zone_with_science((7, 2)), None);
    assert_eq!(map.zone_stats(), (1, 4));
    assert!(!map.is_resource_accessible(20, 20));
}

#[test]
fn accessible_resources_counts_unlocked_zones() {
    let mut map = open_map(10, 10);
    map.grid[1][1] = Cell::Mineral;
    map.grid[2][7] = Cell::Mineral;
    map.grid[8][8] = Cell::Energy;
    assert_eq!(map.accessible_resources(), (0, 0));
    map.zones[0].unlock();
    map.zones[3].unlock();
    assert_eq!(map.accessible_resources(), (1, 1));
}

#[test]
fn next_turn_counts() {
    let mut map = open_map(4, 4);
    map.next_turn();
    map.next_turn();
    assert_eq!(map.current_turn, 2);
}

#[test]
fn inventory_operations() {
    let mut a = Inventory::new();
    assert!(a.is_empty());
    assert_eq!(a.get(ResourceType::Energy), None);
    a.add(ResourceType::Energy, 3);
    a.add(ResourceType::Mineral, 1);
    assert_eq!(a.get(ResourceType::Energy), Some(3));
    assert!(a.contains(ResourceType::Mineral));
    assert!(!a.contains(ResourceType::Science));
    assert_eq!(a.total_count(), 4);
    let mut b = Inventory::new();
    b.add(ResourceType::Energy, 1);
    assert!(b.fits(&a));
    b.take_all(&mut a);
    assert!(a.is_empty());
    assert_eq!(b.count_of(ResourceType::Energy), 4);
    let mut full = Inventory::new();
    full.add(ResourceType::Science, u32::MAX);
    let mut one = Inventory::new();
    one.add(ResourceType::Science, 1);
    assert!(!full.fits(&one));
}

#[test]
fn collect_mineral_needs_access() {
    let mut map = open_map(10, 10);
    map.grid[2][2] = Cell::Mineral;
    let mut r = robot(2, 2, 5, RobotType::Collector);
    assert_eq!(r.collect_resource(&mut map, false), None);
    assert_eq!(r.inventory_count(), 0);
    assert_eq!(map.grid[2][2], Cell::Mineral);
    map.zones[0].unlock();
    assert_eq!(r.collect_resource(&mut map, false), None);
    assert_eq!(r.inventory.get(ResourceType::Mineral), Some(1));
    assert_eq!(map.grid[2][2], Cell::Empty);
    assert!(r.collected_science_positions.is_empty());
}

#[test]
fn collect_energy_when_revealed_updates_tally() {
    let mut samples = vec![vec![500; 10]; 10];
    samples[7][7] = -100;
    let mut map = WorldMap::new(10, 10, &samples);
    assert_eq!(map.zones[3].resource_count, (0, 1));
    let mut r = robot(7, 7, 5, RobotType::Collector);
    r.collect_resource(&mut map, true);
    assert_eq!(r.inventory.get(ResourceType::Energy), Some(1));
    assert_eq!(map.zones[3].resource_count, (0, 0));
}

#[test]
fn collect_respects_capacity() {
    let mut map = open_map(10, 10);
    map.grid[3][3] = Cell::Science;
    let mut r = robot(3, 3, 1, RobotType::Explorator);
    r.inventory.add(ResourceType::Mineral, 1);
    assert_eq!(r.collect_resource(&mut map, true), None);
    assert_eq!(r.inventory_count(), 1);
    assert_eq!(map.grid[3][3], Cell::Science);
    assert!(r.inventory_count() <= r.inventory_capacity);
}

#[test]
fn collect_on_empty_cell_does_nothing() {
    let mut map = open_map(10, 10);
    let mut r = robot(3, 3, 5, RobotType::Collector);
    assert_eq!(r.collect_resource(&mut map, true), None);
    assert_eq!(r.inventory_count(), 0);
}

#[test]
fn unload_moves_everything() {
    let mut map = open_map(10, 10);
    let mut st = station(4, 4);
    st.inventory.add(ResourceType::Mineral, 1);
    let mut r = robot(4, 4, 5, RobotType::Collector);
    r.inventory.add(ResourceType::Mineral, 2);
    r.inventory.add(ResourceType::Energy, 1);
    assert!(!r.unload_resources(&mut st, &mut map));
    assert_eq!(r.inventory_count(), 0);
    assert_eq!(st.inventory.total_count(), 4);
    assert_eq!(st.inventory.get(ResourceType::Mineral), Some(3));
    assert_eq!(map.current_turn, 1);
}

#[test]
fn unload_off_station_or_empty_does_nothing() {
    let mut map = open_map(10, 10);
    let mut st = station(4, 4);
    let mut r = robot(3, 4, 5, RobotType::Collector);
    r.inventory.add(ResourceType::Science, 1);
    assert!(!r.unload_resources(&mut st, &mut map));
    assert_eq!(r.inventory_count(), 1);
    assert!(st.inventory.is_empty());
    let mut empty = robot(4, 4, 5, RobotType::Collector);
    assert!(!empty.unload_resources(&mut st, &mut map));
    assert_eq!(map.current_turn, 0);
}

#[test]
fn science_deposit_unlocks_collection_zones() {
    let mut map = open_map(10, 10);
    map.grid[7][2] = Cell::Science;
    let mut r = robot(2, 7, 5, RobotType::Explorator);
    r.collect_resource(&mut map, false);
    assert!(!map.zones[2].is_unlocked);
    r.x = 4;
    r.y = 4;
    let mut st = station(4, 4);
    assert!(r.unload_resources(&mut st, &mut map));
    assert!(map.zones[2].is_unlocked);
    assert!(!map.zones[0].is_unlocked);
    assert!(r.collected_science_positions.is_empty());
}

#[test]
fn unlocked_zone_stays_unlocked() {
    let mut map = open_map(10, 10);
    map.unlock_zone_with_science((1, 1));
    map.grid[2][2] = Cell::Mineral;
    let mut r = robot(2, 2, 5, RobotType::Collector);
    r.collect_resource(&mut map, false);
    let mut st = station(2, 2);
    r.unload_resources(&mut st, &mut map);
    map.unlock_zone_with_science((1, 1));
    map.count_resources_in_zones();
    map.next_turn();
    assert!(map.zones[0].is_unlocked);
}

#[test]
fn move_blocked_by_other_robot() {
    let map = open_map(10, 10);
    let st = station(8, 8);
    let mut a = robot(3, 3, 5, RobotType::Collector);
    a.try_move(0, 1, &map, false, &[(3, 4)], &st);
    assert_eq!((a.x, a.y), (3, 3));
    a.try_move(1, 0, &map, false, &[(3, 4)], &st);
    assert_eq!((a.x, a.y), (4, 3));
}

#[test]
fn robots_may_share_the_station() {
    let map = open_map(10, 10);
    let st = station(3, 4);
    let mut a = robot(3, 3, 5, RobotType::Collector);
    a.try_move(0, 1, &map, false, &[(3, 4)], &st);
    assert_eq!((a.x, a.y), (3, 4));
}

#[test]
fn move_rejected_off_grid_into_obstacle_or_hidden_resource() {
    let mut map = open_map(10, 10);
    let st = station(8, 8);
    let mut a = robot(1, 1, 5, RobotType::Collector);
    a.try_move(0, -1, &map, true, &[], &st);
    assert_eq!((a.x, a.y), (1, 1));
    a.try_move(-5, 0, &map, true, &[], &st);
    assert_eq!((a.x, a.y), (1, 1));
    map.grid[1][2] = Cell::Mineral;
    a.try_move(1, 0, &map, false, &[], &st);
    assert_eq!((a.x, a.y), (1, 1));
    a.try_move(1, 0, &map, true, &[], &st);
    assert_eq!((a.x, a.y), (2, 1));
    let mut edge = robot(9, 9, 5, RobotType::Collector);
    edge.try_move(1, 0, &map, true, &[], &st);
    assert_eq!((edge.x, edge.y), (9, 9));
}

#[test]
fn collector_heads_for_accessible_mineral() {
    let mut map = open_map(10, 10);
    map.grid[4][2] = Cell::Mineral;
    map.zones[0].unlock();
    let st = station(8, 8);
    let mut r = robot(2, 2, 5, RobotType::Collector);
    automate_robot(&mut r, &map, &st, false, &[]);
    assert_eq!((r.x, r.y), (2, 3));
}

#[test]
fn robot_with_science_returns_to_station() {
    let map = open_map(10, 10);
    let st = station(5, 2);
    let mut r = robot(2, 2, 5, RobotType::Explorator);
    r.inventory.add(ResourceType::Science, 1);
    automate_robot(&mut r, &map, &st, false, &[]);
    assert_eq!((r.x, r.y), (3, 2));
}

#[test]
fn full_collector_returns_to_station() {
    let map = open_map(10, 10);
    let st = station(2, 5);
    let mut r = robot(2, 2, 2, RobotType::Collector);
    r.inventory.add(ResourceType::Mineral, 2);
    automate_robot(&mut r, &map, &st, true, &[]);
    assert_eq!((r.x, r.y), (2, 3));
}

#[test]
fn explorator_seeks_science() {
    let map = open_map(10, 10);
    let st = station(1, 1);
    let mut r = robot(6, 2, 5, RobotType::Explorator);
    automate_robot(&mut r, &map, &st, false, &[]);
    assert_eq!((r.x, r.y), (6, 3));
}

#[test]
fn idle_without_target() {
    let map = open_map(10, 10);
    let st = station(1, 1);
    let mut r = robot(3, 3, 5, RobotType::Collector);
    automate_robot(&mut r, &map, &st, true, &[]);
    assert_eq!((r.x, r.y), (3, 3));
}

#[test]
fn tick_moves_collects_and_unloads() {
    let config = Config { width: 20, height: 10, seed: 1 };
    let mut state = GameState::new(&config, &vec![vec![500; 20]; 10]);
    state.resources_revealed = true;
    state.map.grid[4][8] = Cell::Mineral;
    state.map.grid[5][8] = Cell::Mineral;
    automate_all_robots(&mut state, true);
    assert_eq!(state.robots.len(), 6);
    assert_eq!((state.robots[0].x, state.robots[0].y), (8, 4));
    assert_eq!(state.robots[0].inventory.get(ResourceType::Mineral), Some(1));
    assert_eq!(state.map.grid[4][8], Cell::Empty);
    let before = state.robots.iter().map(|r| (r.x, r.y)).collect::<Vec<_>>();
    automate_all_robots(&mut state, false);
    let after = state.robots.iter().map(|r| (r.x, r.y)).collect::<Vec<_>>();
    assert_eq!(before, after);
}

#[test]
fn tick_deposits_science_and_speeds_up() {
    let config = Config { width: 20, height: 10, seed: 1 };
    let mut state = GameState::new(&config, &vec![vec![500; 20]; 10]);
    state.robots[0].x = 9;
    state.robots[0].inventory.add(ResourceType::Science, 1);
    state.robots[0].collected_science_positions.push((15, 7));
    automate_all_robots(&mut state, false);
    assert!(state.map.zones[3].is_unlocked);
    // the station's own zone stays locked: no sample came from it
    assert!(!state.map.zones[0].is_unlocked);
    assert_eq!(state.station.inventory.get(ResourceType::Science), Some(1));
    assert_eq!(state.robot_speed_ms, 200);
}

#[test]
fn intents_move_toggle_quit() {
    let config = Config { width: 20, height: 10, seed: 1 };
    let mut state = GameState::new(&config, &vec![vec![500; 20]; 10]);
    let mut auto = true;
    assert!(!handle_intent(&mut state, Intent::ToggleAutomation, &mut auto));
    assert!(!auto);
    assert!(!handle_intent(&mut state, Intent::Move(0, 1), &mut auto));
    assert_eq!((state.robots[0].x, state.robots[0].y), (8, 5));
    // (7, 4) is held by the other robots
    assert!(!handle_intent(&mut state, Intent::Move(-1, -1), &mut auto) && state.robots[0].x == 8);
    state.robots[0].y = 4;
    assert!(!handle_intent(&mut state, Intent::Move(-1, 0), &mut auto));
    assert_eq!((state.robots[0].x, state.robots[0].y), (8, 4));
    assert!(handle_intent(&mut state, Intent::Quit, &mut auto));
}

#[test]
fn open_map_zones_have_zero_tallies() {
    let map = open_map(10, 10);
    for z in &map.zones {
        assert_eq!(z.resource_count, (0, 0));
    }
    let copy = map.zones[1].clone();
    assert_eq!(copy, map.zones[1]);
}

#[test]
fn unload_off_station_needs_no_room() {
    let mut map = open_map(10, 10);
    let mut st = station(4, 4);
    st.inventory.add(ResourceType::Mineral, u32::MAX);
    let mut r = robot(3, 4, 5, RobotType::Collector);
    r.inventory.add(ResourceType::Mineral, 1);
    assert!(!r.unload_resources(&mut st, &mut map));
    assert_eq!(r.inventory_count(), 1);
}

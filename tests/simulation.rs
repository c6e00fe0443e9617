use noise::{NoiseFn, Perlin};
use tp_rust_ereea::cell::Cell;
use tp_rust_ereea::config::Config;
use tp_rust_ereea::game_state::GameState;
use tp_rust_ereea::inventory::{Inventory, ResourceType};
use tp_rust_ereea::robot::{Robot, RobotType};
use tp_rust_ereea::station::Station;
use tp_rust_ereea::world::WorldMap;

/// Perlin noise at each cell, in thousandths, as the game samples it.
fn noise_samples(width: usize, height: usize, seed: u32) -> Vec<Vec<i32>> {
    let perlin = Perlin::default();
    (0..height)
        .map(|y| {
            (0..width)
                .map(|x| {
                    let n = perlin.get([x as f64 / 10.0, y as f64 / 10.0, seed as f64]);
                    (n * 1000.0).floor() as i32
                })
                .collect()
        })
        .collect()
}

fn seeded_map(width: usize, height: usize, seed: u32) -> WorldMap {
    WorldMap::new(width, height, &noise_samples(width, height, seed))
}

fn robot_at(x: usize, y: usize, inventory: Inventory) -> Robot {
    Robot {
        x,
        y,
        inventory,
        inventory_capacity: 5,
        collected_science_positions: vec![],
        robot_type: RobotType::Collector,
    }
}

#[test]
fn test_game_state_initialization() {
    let config = Config::default();
    let state = GameState::new(&config, &noise_samples(config.width, config.height, config.seed));

    assert_eq!(state.resources_revealed, false);
    assert_eq!(state.robots[0].inventory_count(), 0);
    assert_eq!(state.map.width, config.width);
    assert_eq!(state.map.height, config.height);
}

#[test]
fn test_collect_science() {
    let mut map = seeded_map(10, 10, 42);
    map.grid[5][5] = Cell::Science;

    let mut robot = robot_at(5, 5, Inventory::new());

    let message = robot.collect_resource(&mut map, true);

    assert_eq!(robot.inventory.get(ResourceType::Science), Some(1));
    assert_eq!(
        message,
        Some("Lieu scientifique collecté ! Retourne au labo.".to_string())
    );
}

#[test]
fn test_unload_station() {
    let mut station = Station {
        x: 5,
        y: 5,
        inventory: Inventory::new(),
    };

    let mut map = seeded_map(10, 10, 42);

    let mut inventory = Inventory::new();
    inventory.add(ResourceType::Science, 2);
    let mut robot = robot_at(5, 5, inventory);

    let deposited = robot.unload_resources(&mut station, &mut map);
    assert!(deposited);
    assert_eq!(station.inventory.get(ResourceType::Science), Some(2));
    assert_eq!(robot.inventory_count(), 0);
}

#[test]
fn collect_science_logs_its_position() {
    let mut map = seeded_map(10, 10, 42);
    map.grid[5][5] = Cell::Science;
    let mut robot = robot_at(5, 5, Inventory::new());

    let message = robot.collect_resource(&mut map, true);

    assert_eq!(robot.inventory.get(ResourceType::Science), Some(1));
    assert!(message.is_some());
    assert_eq!(robot.collected_science_positions, vec![(5, 5)]);
    assert_eq!(map.grid[5][5], Cell::Empty);
}

#[test]
fn unload_science_advances_turn_once() {
    let mut station = Station { x: 5, y: 5, inventory: Inventory::new() };
    let mut map = seeded_map(10, 10, 42);
    let turn = map.current_turn;
    let mut inventory = Inventory::new();
    inventory.add(ResourceType::Science, 2);
    let mut robot = robot_at(5, 5, inventory);

    assert!(robot.unload_resources(&mut station, &mut map));
    assert_eq!(station.inventory.get(ResourceType::Science), Some(2));
    assert_eq!(station.inventory.get(ResourceType::Mineral), None);
    assert!(robot.inventory.is_empty());
    assert_eq!(map.current_turn, turn + 1);
}

#[test]
fn game_state_places_robots_near_station() {
    let config = Config::default();
    let state = GameState::new(&config, &noise_samples(config.width, config.height, config.seed));
    assert_eq!(state.robots.len(), 6);
    assert_eq!((state.robots[0].x, state.robots[0].y), (8, 4));
    assert_eq!((state.robots[3].x, state.robots[3].y), (7, 4));
    assert_eq!(state.robots[4].robot_type, RobotType::Collector);
    assert_eq!(state.robots[5].robot_type, RobotType::Explorator);
    assert_eq!((state.station.x, state.station.y), (9, 4));
    assert_eq!(state.robot_speed_ms, 250);
    assert!(state.last_collect_message.is_none());
    assert_eq!(state.map.current_turn, 0);
}

#[test]
fn config_default_values() {
    let config = Config::default();
    assert_eq!((config.width, config.height, config.seed), (50, 15, 42));
}

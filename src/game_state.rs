use vstd::prelude::*;
use crate::config::Config;
use crate::inventory::Inventory;
use crate::robot::{Robot, RobotType};
use crate::station::Station;
use crate::world::WorldMap;

verus! {

/// Everything a running game holds.
pub struct GameState {
    pub robots: Vec<Robot>,
    pub map: WorldMap,
    pub station: Station,
    pub last_collect_message: Option<String>,
    pub resources_revealed: bool,
    pub robot_speed_ms: u64,
}

impl GameState {
    /// The map is well formed and every robot stands on it within capacity.
    pub open spec fn wf(&self) -> bool {
        &&& self.map.wf()
        &&& forall|i: int|
            0 <= i < self.robots@.len() ==> {
                &&& self.map.in_bounds((#[trigger] self.robots@[i]).x as int, self.robots@[i].y as int)
                &&& self.robots@[i].wf()
            }
    }

    /// Five collectors and one explorator near the station at (9, 4), on a
    /// new map built from `samples` (see `WorldMap::new`).
    pub fn new(config: &Config, samples: &Vec<Vec<i32>>) -> (state: GameState)
        requires
            config.width >= 2,
            config.height >= 2,
            config.width * config.height < u32::MAX,
            samples@.len() == config.height,
            forall|y: int| 0 <= y < config.height ==> #[trigger] samples@[y]@.len() == config.width,
        ensures
            state.map.width == config.width,
            state.map.height == config.height,
            state.map.current_turn == 0,
            state.map.quadrant_zones(),
            state.robots@.len() == 6,
            forall|i: int|
                0 <= i < 6 ==> {
                    &&& (#[trigger] state.robots@[i]).x == if i == 0 {
                        8usize
                    } else {
                        7usize
                    }
                    &&& state.robots@[i].y == 4
                    &&& state.robots@[i].inventory == Inventory::empty()
                    &&& state.robots@[i].inventory_capacity == 5
                    &&& state.robots@[i].collected_science_positions@.len() == 0
                    &&& state.robots@[i].robot_type == if i < 5 {
                        RobotType::Collector
                    } else {
                        RobotType::Explorator
                    }
                },
            state.station.x == 9,
            state.station.y == 4,
            state.station.inventory == Inventory::empty(),
            state.last_collect_message is None,
            !state.resources_revealed,
            state.robot_speed_ms == 250,
            config.width > 9 && config.height > 4 ==> state.wf(),
    {
        let num_collectors: usize = 5;
        let num_explorators: usize = 1;
        let mut robots: Vec<Robot> = Vec::new();
        let mut i: usize = 0;
        while i < num_collectors
            invariant
                i <= num_collectors,
                num_collectors == 5,
                robots@.len() == i,
                forall|j: int|
                    0 <= j < i ==> {
                        &&& (#[trigger] robots@[j]).x == if j == 0 {
                            8usize
                        } else {
                            7usize
                        }
                        &&& robots@[j].y == 4
                        &&& robots@[j].inventory == Inventory::empty()
                        &&& robots@[j].inventory_capacity == 5
                        &&& robots@[j].collected_science_positions@.len() == 0
                        &&& robots@[j].robot_type == RobotType::Collector
                    },
            decreases num_collectors - i,
        {
            robots.push(
                Robot {
                    x: if i == 0 {
                        8
                    } else {
                        7
                    },
                    y: 4,
                    inventory: Inventory::new(),
                    inventory_capacity: 5,
                    collected_science_positions: Vec::new(),
                    robot_type: RobotType::Collector,
                },
            );
            i = i + 1;
        }
        let mut i: usize = 0;
        while i < num_explorators
            invariant
                i <= num_explorators,
                num_explorators == 1,
                robots@.len() == 5 + i,
                forall|j: int|
                    0 <= j < 5 + i ==> {
                        &&& (#[trigger] robots@[j]).x == if j == 0 {
                            8usize
                        } else {
                            7usize
                        }
                        &&& robots@[j].y == 4
                        &&& robots@[j].inventory == Inventory::empty()
                        &&& robots@[j].inventory_capacity == 5
                        &&& robots@[j].collected_science_positions@.len() == 0
                        &&& robots@[j].robot_type == if j < 5 {
                            RobotType::Collector
                        } else {
                            RobotType::Explorator
                        }
                    },
            decreases num_explorators - i,
        {
            robots.push(
                Robot {
                    x: 7,
                    y: 4,
                    inventory: Inventory::new(),
                    inventory_capacity: 5,
                    collected_science_positions: Vec::new(),
                    robot_type: RobotType::Explorator,
                },
            );
            i = i + 1;
        }
        GameState {
            robots,
            map: WorldMap::new(config.width, config.height, samples),
            station: Station { x: 9, y: 4, inventory: Inventory::new() },
            last_collect_message: None,
            resources_revealed: false,
            robot_speed_ms: 250,
        }
    }
}

} // verus!

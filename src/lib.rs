//! A grid exploration game: robots find their way across a map, harvest
//! resources, bring them back to a station and, with science samples,
//! unlock the zones of the map.
pub mod cell;
pub mod zone;
pub mod world;
pub mod pathfinding;
pub mod terrain;
pub mod inventory;
pub mod station;
pub mod robot;
pub mod config;
pub mod game_state;
pub mod automation;


use vstd::prelude::*;

verus! {

/// The content of one grid cell.
#[derive(Debug, Clone, Copy, PartialEq, Eq, Structural)]
pub enum Cell {
    Wall,
    Empty,
    Obstacle,
    Energy,
    Mineral,
    Science,
}

impl Cell {
    /// Permanently impassable terrain.
    pub open spec fn is_terrain_block(self) -> bool {
        self == Cell::Wall || self == Cell::Obstacle
    }

    /// A resource that stays hidden until its zone is unlocked or all
    /// resources are revealed.
    pub open spec fn is_hidden_kind(self) -> bool {
        self == Cell::Mineral || self == Cell::Energy
    }

    pub fn is_wall_or_obstacle(&self) -> (r: bool)
        ensures
            r == self.is_terrain_block(),
    {
        matches!(self, Cell::Wall | Cell::Obstacle)
    }

    pub fn is_mineral_or_energy(&self) -> (r: bool)
        ensures
            r == self.is_hidden_kind(),
    {
        matches!(self, Cell::Mineral | Cell::Energy)
    }
}

} // verus!

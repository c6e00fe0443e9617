use vstd::prelude::*;
use vstd::string::StringExecFns;
use crate::cell::Cell;
use crate::inventory::{Inventory, ResourceType};
use crate::pathfinding::{blocked, is_blocked, Visibility};
use crate::station::Station;
use crate::world::{lemma_unlock_all_kept, unlock_all, zones_kept, WorldMap};

verus! {

/// The role that decides what a robot looks for.
#[derive(Debug, Clone, Copy, PartialEq, Eq, Structural)]
pub enum RobotType {
    /// Seeks science samples.
    Explorator,
    /// Seeks minerals, then energy.
    Collector,
}

#[derive(Debug)]
pub struct Robot {
    pub x: usize,
    pub y: usize,
    pub inventory: Inventory,
    pub inventory_capacity: usize,
    /// Where each science sample that the robot carries was collected.
    pub collected_science_positions: Vec<(usize, usize)>,
    pub robot_type: RobotType,
}

/// The message returned when a science sample is collected.
pub open spec fn science_message() -> Seq<char> {
    "Lieu scientifique collecté ! Retourne au labo."@
}

/// What a robot standing on `(x, y)` may harvest there: science always,
/// minerals and energy once revealed or in an unlocked zone.
pub open spec fn harvestable(map: &WorldMap, x: int, y: int, revealed: bool) -> Option<ResourceType> {
    let c = map.cell(x, y);
    if c == Cell::Science {
        Some(ResourceType::Science)
    } else if c == Cell::Mineral && (revealed || map.accessible(x, y)) {
        Some(ResourceType::Mineral)
    } else if c == Cell::Energy && (revealed || map.accessible(x, y)) {
        Some(ResourceType::Energy)
    } else {
        None
    }
}

/// `b` is `a` with the cell at `(x, y)` emptied and the zone tallies
/// recomputed.
pub open spec fn cell_cleared(a: &WorldMap, b: &WorldMap, x: int, y: int) -> bool {
    &&& b.wf()
    &&& b.width == a.width
    &&& b.height == a.height
    &&& b.current_turn == a.current_turn
    &&& zones_kept(a.zones@, b.zones@)
    &&& forall|i: int| 0 <= i < a.zones@.len() ==> (#[trigger] b.zones@[i]).is_unlocked == a.zones@[i].is_unlocked
    &&& forall|a1: int, b1: int|
        b.in_bounds(a1, b1) ==> #[trigger] b.cell(a1, b1) == if a1 == x && b1 == y {
            Cell::Empty
        } else {
            a.cell(a1, b1)
        }
    &&& b.tallies_match()
}

/// `r1` and `m1` are `r0` and `m0` after `r0` harvests its cell: when it
/// holds something that may be taken and there is room, the count grows by
/// one, the cell is emptied, science is logged and announced by `msg`;
/// otherwise nothing changes.
pub open spec fn collect_outcome(r0: Robot, m0: WorldMap, revealed: bool, r1: Robot, m1: WorldMap, msg: Option<String>) -> bool {
    let (x, y) = (r0.x as int, r0.y as int);
    let h = harvestable(&m0, x, y, revealed);
    let k = h->Some_0;
    if h is Some && r0.has_room(k) {
        &&& r1.inventory == r0.inventory.added(k, 1)
        &&& r1.collected_science_positions@ == if k == ResourceType::Science {
            r0.collected_science_positions@.push((r0.x, r0.y))
        } else {
            r0.collected_science_positions@
        }
        &&& r1.x == r0.x
        &&& r1.y == r0.y
        &&& r1.inventory_capacity == r0.inventory_capacity
        &&& r1.robot_type == r0.robot_type
        &&& cell_cleared(&m0, &m1, x, y)
        &&& (msg is Some <==> k == ResourceType::Science)
        &&& (msg matches Some(m) ==> m@ == science_message())
    } else {
        &&& r1 == r0
        &&& m1 == m0
        &&& msg is None
    }
}

/// `r1`, `s1`, `m1` are `r0`, `s0`, `m0` after `r0` unloads: on the station
/// with a non-empty inventory, everything moves into the station, carried
/// science unlocks the zones logged for it, the turn advances and
/// `deposited` tells whether science was among it; otherwise nothing changes.
pub open spec fn unload_outcome(
    r0: Robot,
    s0: Station,
    m0: WorldMap,
    r1: Robot,
    s1: Station,
    m1: WorldMap,
    deposited: bool,
) -> bool {
    if r0.at_station(&s0) && r0.inventory.total() > 0 {
        &&& deposited == (r0.inventory.science > 0)
        &&& r1.inventory == Inventory::empty()
        &&& r1.inventory.total() == 0
        &&& s1.inventory == s0.inventory.merged(r0.inventory)
        &&& s1.inventory.total() == s0.inventory.total() + r0.inventory.total()
        &&& s1.x == s0.x
        &&& s1.y == s0.y
        &&& r1.x == r0.x
        &&& r1.y == r0.y
        &&& r1.inventory_capacity == r0.inventory_capacity
        &&& r1.robot_type == r0.robot_type
        &&& m1.current_turn == m0.current_turn + 1
        &&& m1.width == m0.width
        &&& m1.height == m0.height
        &&& m1.grid == m0.grid
        &&& zones_kept(m0.zones@, m1.zones@)
        &&& if deposited && r0.collected_science_positions@.len() > 0 {
            &&& m1.zones@ == unlock_all(m0.zones@, r0.collected_science_positions@)
            &&& r1.collected_science_positions@.len() == 0
        } else {
            &&& m1.zones == m0.zones
            &&& r1.collected_science_positions == r0.collected_science_positions
        }
    } else {
        &&& !deposited
        &&& r1 == r0
        &&& s1 == s0
        &&& m1 == m0
    }
}

/// A robot may step onto `(x, y)`: it lies on the grid, no other robot
/// stands there (the station's cell excepted), and it is not blocked.
pub open spec fn may_enter(
    map: &WorldMap,
    revealed: bool,
    others: Seq<(usize, usize)>,
    station: &Station,
    x: int,
    y: int,
) -> bool {
    &&& map.in_bounds(x, y)
    &&& ((x == station.x && y == station.y) || !others.contains((x as usize, y as usize)))
    &&& !blocked(map, Visibility::PerZone, revealed, x, y)
}

/// `v + d` when it lies in `0 .. bound`.
fn offset_coord(v: usize, d: isize, bound: usize) -> (r: Option<usize>)
    ensures
        r matches Some(n) ==> n == v + d && n < bound,
        r is None ==> !(0 <= v + d < bound),
{
    if d >= 0 {
        let du = d as usize;
        if du < bound && v < bound - du {
            Some(v + du)
        } else {
            None
        }
    } else {
        let du = (-(d + 1)) as usize + 1;
        if v >= du && v - du < bound {
            Some(v - du)
        } else {
            None
        }
    }
}

fn occupied(others: &[(usize, usize)], x: usize, y: usize) -> (r: bool)
    ensures
        r == others@.contains((x, y)),
{
    let mut i: usize = 0;
    while i < others.len()
        invariant
            i <= others@.len(),
            forall|j: int| 0 <= j < i ==> others@[j] != (x, y),
        decreases others@.len() - i,
    {
        if others[i].0 == x && others[i].1 == y {
            return true;
        }
        i = i + 1;
    }
    false
}

impl Robot {
    /// The robot never carries more than its capacity.
    pub open spec fn wf(&self) -> bool {
        self.inventory.total() <= self.inventory_capacity
    }

    /// Room for one more unit of `kind`.
    pub open spec fn has_room(&self, kind: ResourceType) -> bool {
        self.inventory.total() < self.inventory_capacity && self.inventory.count(kind) < u32::MAX
    }

    /// The robot after attempting the step `(dx, dy)`.
    pub open spec fn after_move(
        &self,
        map: &WorldMap,
        revealed: bool,
        others: Seq<(usize, usize)>,
        station: &Station,
        dx: int,
        dy: int,
    ) -> Robot {
        if may_enter(map, revealed, others, station, self.x + dx, self.y + dy) {
            Robot { x: (self.x + dx) as usize, y: (self.y + dy) as usize, ..*self }
        } else {
            *self
        }
    }

    pub open spec fn at_station(&self, station: &Station) -> bool {
        self.x == station.x && self.y == station.y
    }

    /// Total units carried.
    pub fn inventory_count(&self) -> (r: usize)
        requires
            self.inventory.total() <= usize::MAX,
        ensures
            r == self.inventory.total(),
    {
        self.inventory.total_count() as usize
    }

    /// Harvests the robot's cell when it holds something that may be taken
    /// and the robot has room: the count grows by one, the cell becomes
    /// empty and, for science, the position is logged and a message returned.
    pub fn collect_resource(&mut self, map: &mut WorldMap, resources_revealed: bool) -> (r: Option<String>)
        requires
            old(map).wf(),
            old(map).in_bounds(old(self).x as int, old(self).y as int),
            old(self).wf(),
        ensures
            final(self).wf(),
            final(self).inventory.total() <= final(self).inventory_capacity,
            collect_outcome(*old(self), *old(map), resources_revealed, *final(self), *final(map), r),
    {
        let x = self.x;
        let y = self.y;
        let cell = map.cell_at(x, y);
        let open = resources_revealed || map.is_resource_accessible(x, y);
        let kind = if cell == Cell::Science {
            ResourceType::Science
        } else if cell == Cell::Mineral && open {
            ResourceType::Mineral
        } else if cell == Cell::Energy && open {
            ResourceType::Energy
        } else {
            return None;
        };
        if self.inventory.total_count() >= self.inventory_capacity as u64 || self.inventory.count_of(kind) == u32::MAX {
            return None;
        }
        self.inventory.add(kind, 1);
        map.grid[y][x] = Cell::Empty;
        map.count_resources_in_zones();
        if kind == ResourceType::Science {
            self.collected_science_positions.push((x, y));
            Some(String::from_str("Lieu scientifique collecté ! Retourne au labo."))
        } else {
            None
        }
    }

    /// At the station with a non-empty inventory: moves everything into the
    /// station, unlocks the zones where the carried science was collected
    /// (when science is among it) and advances the turn. Returns whether
    /// science was deposited; off the station or empty-handed, does nothing.
    pub fn unload_resources(&mut self, station: &mut Station, map: &mut WorldMap) -> (r: bool)
        requires
            old(self).at_station(old(station)) && old(self).inventory.total() > 0 ==> old(
                station,
            ).inventory.can_take(old(self).inventory) && old(map).current_turn < u32::MAX,
        ensures
            unload_outcome(*old(self), *old(station), *old(map), *final(self), *final(station), *final(map), r),
    {
        if self.x != station.x || self.y != station.y || self.inventory.is_empty() {
            return false;
        }
        let science = self.inventory.science > 0;
        station.inventory.take_all(&mut self.inventory);
        if science && self.collected_science_positions.len() > 0 {
            let mut i: usize = 0;
            while i < self.collected_science_positions.len()
                invariant
                    i <= self.collected_science_positions@.len(),
                    self.collected_science_positions == old(self).collected_science_positions,
                    map.zones@ == unlock_all(old(map).zones@, self.collected_science_positions@.take(i as int)),
                    map.width == old(map).width,
                    map.height == old(map).height,
                    map.grid == old(map).grid,
                    map.current_turn == old(map).current_turn,
                decreases self.collected_science_positions@.len() - i,
            {
                let p = self.collected_science_positions[i];
                let _ = map.unlock_zone_with_science(p);
                proof {
                    assert(self.collected_science_positions@.take(i + 1).drop_last()
                        =~= self.collected_science_positions@.take(i as int));
                }
                i = i + 1;
            }
            proof {
                assert(self.collected_science_positions@.take(i as int) =~= self.collected_science_positions@);
            }
            self.collected_science_positions = Vec::new();
        }
        proof {
            lemma_unlock_all_kept(old(map).zones@, old(self).collected_science_positions@);
            lemma_unlock_all_kept(old(map).zones@, Seq::<(usize, usize)>::empty());
        }
        map.next_turn();
        science
    }

    /// Steps by `(dx, dy)` when the new cell may be entered (see
    /// `may_enter`, judged against `other_robots`); otherwise stays put.
    pub fn try_move(
        &mut self,
        dx: isize,
        dy: isize,
        map: &WorldMap,
        resources_revealed: bool,
        other_robots: &[(usize, usize)],
        station: &Station,
    )
        requires
            map.wf(),
        ensures
            *final(self) == old(self).after_move(map, resources_revealed, other_robots@, station, dx as int, dy as int),
    {
        let nx = match offset_coord(self.x, dx, map.width) {
            Some(v) => v,
            None => return,
        };
        let ny = match offset_coord(self.y, dy, map.height) {
            Some(v) => v,
            None => return,
        };
        let is_station = nx == station.x && ny == station.y;
        if !is_station && occupied(other_robots, nx, ny) {
            return;
        }
        if is_blocked(map, Visibility::PerZone, nx, ny, resources_revealed) {
            return;
        }
        self.x = nx;
        self.y = ny;
    }
}


/// A harvest never takes a robot past its capacity.
pub proof fn lemma_collect_within_capacity(
    r0: Robot,
    m0: WorldMap,
    revealed: bool,
    r1: Robot,
    m1: WorldMap,
    msg: Option<String>,
)
    requires
        r0.wf(),
        collect_outcome(r0, m0, revealed, r1, m1, msg),
    ensures
        r1.wf(),
        r1.inventory_capacity == r0.inventory_capacity,
{
}

/// A successful unload drains the robot, and the station's total grows by
/// exactly what the robot carried.
pub proof fn lemma_unload_drains(
    r0: Robot,
    s0: Station,
    m0: WorldMap,
    r1: Robot,
    s1: Station,
    m1: WorldMap,
    deposited: bool,
)
    requires
        r0.at_station(&s0),
        r0.inventory.total() > 0,
        unload_outcome(r0, s0, m0, r1, s1, m1, deposited),
    ensures
        r1.inventory.total() == 0,
        s1.inventory.total() == s0.inventory.total() + r0.inventory.total(),
{
}

/// No unload relocks a zone; with `lemma_zones_kept_trans`, no sequence of
/// unloads, harvests or unlocks does.
pub proof fn lemma_unload_keeps_unlocks(
    r0: Robot,
    s0: Station,
    m0: WorldMap,
    r1: Robot,
    s1: Station,
    m1: WorldMap,
    deposited: bool,
)
    requires
        unload_outcome(r0, s0, m0, r1, s1, m1, deposited),
    ensures
        zones_kept(m0.zones@, m1.zones@),
{
}

/// No harvest relocks a zone.
pub proof fn lemma_collect_keeps_unlocks(
    r0: Robot,
    m0: WorldMap,
    revealed: bool,
    r1: Robot,
    m1: WorldMap,
    msg: Option<String>,
)
    requires
        collect_outcome(r0, m0, revealed, r1, m1, msg),
    ensures
        zones_kept(m0.zones@, m1.zones@),
{
}

} // verus!

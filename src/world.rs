use vstd::prelude::*;
use crate::cell::Cell;
use crate::zone::Zone;
use crate::terrain::{generate_noise, generated_cell, on_border};
use vstd::string::StringExecFns;

verus! {

/// The cell grid (indexed `grid[y][x]`), its zones and the turn counter.
pub struct WorldMap {
    pub width: usize,
    pub height: usize,
    pub grid: Vec<Vec<Cell>>,
    pub zones: Vec<Zone>,
    pub current_turn: u32,
}

/// Index of the first zone, at index `i` or later, whose bounds contain `(x, y)`.
pub open spec fn first_zone_from(zones: Seq<Zone>, x: int, y: int, i: int) -> Option<int>
    decreases zones.len() - i,
{
    if i < 0 || i >= zones.len() {
        None
    } else if zones[i].contains(x, y) {
        Some(i)
    } else {
        first_zone_from(zones, x, y, i + 1)
    }
}

/// Index of the first zone whose bounds contain `(x, y)`.
pub open spec fn zone_index_at(zones: Seq<Zone>, x: int, y: int) -> Option<int> {
    first_zone_from(zones, x, y, 0)
}

/// A resource at `(x, y)` is accessible when the zone holding it is unlocked.
pub open spec fn zone_unlocked_at(zones: Seq<Zone>, x: int, y: int) -> bool {
    match zone_index_at(zones, x, y) {
        Some(i) => zones[i].is_unlocked,
        None => false,
    }
}

/// Index of the first locked zone, at index `i` or later, whose bounds contain `(x, y)`.
pub open spec fn first_locked_from(zones: Seq<Zone>, x: int, y: int, i: int) -> Option<int>
    decreases zones.len() - i,
{
    if i < 0 || i >= zones.len() {
        None
    } else if zones[i].contains(x, y) && !zones[i].is_unlocked {
        Some(i)
    } else {
        first_locked_from(zones, x, y, i + 1)
    }
}

/// The zones after unlocking the first locked zone that contains `(x, y)`.
pub open spec fn unlock_at(zones: Seq<Zone>, x: int, y: int) -> Seq<Zone> {
    match first_locked_from(zones, x, y, 0) {
        Some(i) => zones.update(i, Zone { is_unlocked: true, ..zones[i] }),
        None => zones,
    }
}

/// The zones after `unlock_at` for each position of `log`, in order.
pub open spec fn unlock_all(zones: Seq<Zone>, log: Seq<(usize, usize)>) -> Seq<Zone>
    decreases log.len(),
{
    if log.len() == 0 {
        zones
    } else {
        let p = log.last();
        unlock_at(unlock_all(zones, log.drop_last()), p.0 as int, p.1 as int)
    }
}

/// `b` keeps every zone of `a`, with its bounds and identity, and every
/// unlocked zone stays unlocked.
pub open spec fn zones_kept(a: Seq<Zone>, b: Seq<Zone>) -> bool {
    &&& b.len() == a.len()
    &&& forall|i: int|
        0 <= i < a.len() ==> {
            &&& (#[trigger] b[i]).id == a[i].id
            &&& b[i].name == a[i].name
            &&& b[i].min_x == a[i].min_x
            &&& b[i].max_x == a[i].max_x
            &&& b[i].min_y == a[i].min_y
            &&& b[i].max_y == a[i].max_y
            &&& (a[i].is_unlocked ==> b[i].is_unlocked)
        }
}

pub proof fn lemma_first_locked_range(zones: Seq<Zone>, x: int, y: int, i: int)
    requires
        0 <= i,
    ensures
        first_locked_from(zones, x, y, i) matches Some(j) ==> i <= j < zones.len() && zones[j].contains(x, y)
            && !zones[j].is_unlocked,
    decreases zones.len() - i,
{
    if i < zones.len() && !(zones[i].contains(x, y) && !zones[i].is_unlocked) {
        lemma_first_locked_range(zones, x, y, i + 1);
    }
}

pub proof fn lemma_unlock_all_kept(zones: Seq<Zone>, log: Seq<(usize, usize)>)
    ensures
        zones_kept(zones, unlock_all(zones, log)),
    decreases log.len(),
{
    if log.len() > 0 {
        let p = log.last();
        let z = unlock_all(zones, log.drop_last());
        lemma_unlock_all_kept(zones, log.drop_last());
        lemma_first_locked_range(z, p.0 as int, p.1 as int, 0);
    }
}

/// Unlocking never relocks: keeping zones is transitive, so any sequence of
/// operations that each keep the zones keeps every unlocked zone unlocked.
pub proof fn lemma_zones_kept_trans(a: Seq<Zone>, b: Seq<Zone>, c: Seq<Zone>)
    requires
        zones_kept(a, b),
        zones_kept(b, c),
    ensures
        zones_kept(a, c),
{
    assert forall|i: int| 0 <= i < a.len() implies (#[trigger] c[i]).id == a[i].id && (a[i].is_unlocked ==> c[i].is_unlocked) by {
        assert(b[i].id == a[i].id);
    }
}

/// The message announcing that the zone called `name` was unlocked.
pub open spec fn unlock_message(name: Seq<char>) -> Seq<char> {
    "Zone "@ + name + " débloquée"@
}

/// Number of unlocked zones.
pub open spec fn unlocked_count(zones: Seq<Zone>) -> nat
    decreases zones.len(),
{
    if zones.len() == 0 {
        0
    } else {
        unlocked_count(zones.drop_last()) + if zones.last().is_unlocked {
            1nat
        } else {
            0nat
        }
    }
}

pub proof fn lemma_unlocked_count_bound(zones: Seq<Zone>)
    ensures
        unlocked_count(zones) <= zones.len(),
    decreases zones.len(),
{
    if zones.len() > 0 {
        lemma_unlocked_count_bound(zones.drop_last());
    }
}

/// Number of cells at row `y`, columns `x0 .. x1`, that satisfy `p`.
pub open spec fn row_count(p: spec_fn(int, int) -> bool, y: int, x0: int, x1: int) -> nat
    decreases x1 - x0,
{
    if x1 <= x0 {
        0
    } else {
        row_count(p, y, x0, x1 - 1) + if p(x1 - 1, y) {
            1nat
        } else {
            0nat
        }
    }
}

/// Number of cells of the rectangle `x0 .. x1` by `y0 .. y1` that satisfy `p`.
pub open spec fn rect_count(p: spec_fn(int, int) -> bool, x0: int, x1: int, y0: int, y1: int) -> nat
    decreases y1 - y0,
{
    if y1 <= y0 {
        0
    } else {
        rect_count(p, x0, x1, y0, y1 - 1) + row_count(p, y1 - 1, x0, x1)
    }
}

pub proof fn lemma_row_count_bound(p: spec_fn(int, int) -> bool, y: int, x0: int, x1: int)
    requires
        x0 <= x1,
    ensures
        row_count(p, y, x0, x1) <= x1 - x0,
    decreases x1 - x0,
{
    if x0 < x1 {
        lemma_row_count_bound(p, y, x0, x1 - 1);
    }
}

pub proof fn lemma_rect_count_bound(p: spec_fn(int, int) -> bool, x0: int, x1: int, y0: int, y1: int)
    requires
        x0 <= x1,
        y0 <= y1,
    ensures
        rect_count(p, x0, x1, y0, y1) <= (x1 - x0) * (y1 - y0),
    decreases y1 - y0,
{
    if y0 < y1 {
        lemma_rect_count_bound(p, x0, x1, y0, y1 - 1);
        lemma_row_count_bound(p, y1 - 1, x0, x1);
        assert((x1 - x0) * (y1 - y0) == (x1 - x0) * (y1 - 1 - y0) + (x1 - x0)) by (nonlinear_arith);
    }
}

/// Cells of the grid that hold `c`.
pub open spec fn cell_is(grid: Seq<Vec<Cell>>, c: Cell) -> spec_fn(int, int) -> bool {
    |x: int, y: int| grid[y]@[x] == c
}

/// Cells of the grid that hold `c` and lie in an unlocked zone.
pub open spec fn open_cell_is(grid: Seq<Vec<Cell>>, zones: Seq<Zone>, c: Cell) -> spec_fn(int, int) -> bool {
    |x: int, y: int| grid[y]@[x] == c && zone_unlocked_at(zones, x, y)
}

pub proof fn lemma_rect_count_no_columns(p: spec_fn(int, int) -> bool, x0: int, x1: int, y0: int, y1: int)
    requires
        x1 <= x0,
    ensures
        rect_count(p, x0, x1, y0, y1) == 0,
    decreases y1 - y0,
{
    if y0 < y1 {
        lemma_rect_count_no_columns(p, x0, x1, y0, y1 - 1);
    }
}

pub open spec fn min_int(a: int, b: int) -> int {
    if a < b {
        a
    } else {
        b
    }
}

/// Bounds of quadrant `i` (0 north-west, 1 north-east, 2 south-west,
/// 3 south-east) of a `w` by `h` grid: `(min_x, max_x, min_y, max_y)`.
pub open spec fn quadrant(w: int, h: int, i: int) -> (int, int, int, int) {
    let east = i == 1 || i == 3;
    let south = i == 2 || i == 3;
    (
        if east { w / 2 } else { 0 },
        if east { w - 1 } else { w / 2 - 1 },
        if south { h / 2 } else { 0 },
        if south { h - 1 } else { h / 2 - 1 },
    )
}

pub open spec fn in_quadrant(w: int, h: int, i: int, x: int, y: int) -> bool {
    let q = quadrant(w, h, i);
    q.0 <= x <= q.1 && q.2 <= y <= q.3
}

/// Exactly one quadrant holds `(x, y)`.
pub open spec fn in_one_quadrant(w: int, h: int, x: int, y: int) -> bool {
    &&& exists|i: int| 0 <= i < 4 && #[trigger] in_quadrant(w, h, i, x, y)
    &&& forall|i: int, j: int|
        0 <= i < 4 && 0 <= j < 4 && #[trigger] in_quadrant(w, h, i, x, y) && #[trigger] in_quadrant(w, h, j, x, y)
            ==> i == j
}

/// The 2 by 2 quadrants of a grid of at least 2 by 2 cells partition it:
/// every cell lies in exactly one of them.
pub proof fn lemma_quadrants_partition(w: int, h: int)
    requires
        w >= 2,
        h >= 2,
    ensures
        forall|x: int, y: int| 0 <= x < w && 0 <= y < h ==> #[trigger] in_one_quadrant(w, h, x, y),
{
    assert forall|x: int, y: int| 0 <= x < w && 0 <= y < h implies #[trigger] in_one_quadrant(w, h, x, y) by {
        if y < h / 2 {
            if x < w / 2 {
                assert(in_quadrant(w, h, 0, x, y));
            } else {
                assert(in_quadrant(w, h, 1, x, y));
            }
        } else {
            if x < w / 2 {
                assert(in_quadrant(w, h, 2, x, y));
            } else {
                assert(in_quadrant(w, h, 3, x, y));
            }
        }
    }
}

impl WorldMap {
    /// The grid has `height` rows of `width` cells, and the cell count fits
    /// the `u32` tallies.
    pub open spec fn wf(&self) -> bool {
        &&& self.grid@.len() == self.height
        &&& forall|y: int| 0 <= y < self.height ==> #[trigger] self.grid@[y]@.len() == self.width
        &&& self.width * self.height < u32::MAX
    }

    pub open spec fn in_bounds(&self, x: int, y: int) -> bool {
        0 <= x < self.width && 0 <= y < self.height
    }

    pub open spec fn cell(&self, x: int, y: int) -> Cell {
        self.grid@[y]@[x]
    }

    pub open spec fn accessible(&self, x: int, y: int) -> bool {
        zone_unlocked_at(self.zones@, x, y)
    }

    pub fn cell_at(&self, x: usize, y: usize) -> (c: Cell)
        requires
            self.wf(),
            self.in_bounds(x as int, y as int),
        ensures
            c == self.cell(x as int, y as int),
    {
        self.grid[y][x]
    }

    fn zone_index(&self, x: usize, y: usize) -> (r: Option<usize>)
        ensures
            r matches Some(i) ==> i < self.zones@.len() && zone_index_at(self.zones@, x as int, y as int) == Some(i as int),
            r is None ==> zone_index_at(self.zones@, x as int, y as int) is None,
    {
        let mut i: usize = 0;
        while i < self.zones.len()
            invariant
                0 <= i <= self.zones@.len(),
                zone_index_at(self.zones@, x as int, y as int) == first_zone_from(self.zones@, x as int, y as int, i as int),
            decreases self.zones@.len() - i,
        {
            if self.zones[i].contains_point(x, y) {
                return Some(i);
            }
            i = i + 1;
        }
        None
    }

    /// The first zone whose bounds contain `(x, y)`, if any.
    pub fn get_zone_at(&self, x: usize, y: usize) -> (r: Option<&Zone>)
        ensures
            r is None <==> zone_index_at(self.zones@, x as int, y as int) is None,
            r matches Some(z) ==> *z == self.zones@[zone_index_at(self.zones@, x as int, y as int)->Some_0],
    {
        match self.zone_index(x, y) {
            Some(i) => Some(&self.zones[i]),
            None => None,
        }
    }

    /// Whether the zone holding `(x, y)` is unlocked (false outside every zone).
    pub fn is_resource_accessible(&self, x: usize, y: usize) -> (r: bool)
        ensures
            r == self.accessible(x as int, y as int),
    {
        match self.zone_index(x, y) {
            Some(i) => self.zones[i].is_unlocked,
            None => false,
        }
    }
}


impl WorldMap {
    /// Cells of kind `c` inside the zone's bounds, clipped to the grid.
    pub open spec fn zone_tally(&self, z: Zone, c: Cell) -> nat {
        rect_count(
            cell_is(self.grid@, c),
            z.min_x as int,
            min_int(z.max_x + 1, self.width as int),
            z.min_y as int,
            min_int(z.max_y + 1, self.height as int),
        )
    }

    /// Every zone's cached tally matches the grid.
    pub open spec fn tallies_match(&self) -> bool {
        forall|i: int|
            0 <= i < self.zones@.len() ==> (#[trigger] self.zones@[i]).resource_count == (
                self.zone_tally(self.zones@[i], Cell::Mineral) as u32,
                self.zone_tally(self.zones@[i], Cell::Energy) as u32,
            )
    }

    /// The zones are the 2 by 2 quadrants of the grid.
    pub open spec fn quadrant_zones(&self) -> bool {
        &&& self.zones@.len() == 4
        &&& forall|i: int|
            0 <= i < 4 ==> quadrant(self.width as int, self.height as int, i) == (
                (#[trigger] self.zones@[i]).min_x as int,
                self.zones@[i].max_x as int,
                self.zones@[i].min_y as int,
                self.zones@[i].max_y as int,
            )
    }

    /// Counts the cells of kind `c` in the zone's bounds (clipped to the grid).
    fn tally(&self, z: &Zone, c: Cell) -> (r: u32)
        requires
            self.wf(),
        ensures
            r == self.zone_tally(*z, c),
    {
        let x_end: usize = if z.max_x < self.width { z.max_x + 1 } else { self.width };
        let y_end: usize = if z.max_y < self.height { z.max_y + 1 } else { self.height };
        if z.min_x >= x_end || z.min_y >= y_end {
            proof {
                if z.min_x >= x_end {
                    lemma_rect_count_no_columns(cell_is(self.grid@, c), z.min_x as int, x_end as int, z.min_y as int, y_end as int);
                }
            }
            return 0;
        }
        let ghost p = cell_is(self.grid@, c);
        let mut n: u32 = 0;
        let mut y = z.min_y;
        while y < y_end
            invariant
                self.wf(),
                z.min_x < x_end <= self.width,
                z.min_y <= y <= y_end <= self.height,
                p == cell_is(self.grid@, c),
                n == rect_count(p, z.min_x as int, x_end as int, z.min_y as int, y as int),
            decreases y_end - y,
        {
            let mut x = z.min_x;
            while x < x_end
                invariant
                    self.wf(),
                    z.min_x <= x <= x_end <= self.width,
                    z.min_y <= y < y_end <= self.height,
                    p == cell_is(self.grid@, c),
                    n == rect_count(p, z.min_x as int, x_end as int, z.min_y as int, y as int) + row_count(
                        p,
                        y as int,
                        z.min_x as int,
                        x as int,
                    ),
                decreases x_end - x,
            {
                proof {
                    lemma_rect_count_bound(p, z.min_x as int, x_end as int, z.min_y as int, y as int);
                    lemma_row_count_bound(p, y as int, z.min_x as int, x as int);
                    assert((x_end - z.min_x) * (y - z.min_y) + (x - z.min_x) < self.width * self.height) by (nonlinear_arith)
                        requires
                            z.min_x <= x < x_end <= self.width,
                            z.min_y <= y < y_end <= self.height,
                    ;
                }
                if self.grid[y][x] == c {
                    n = n + 1;
                }
                x = x + 1;
            }
            y = y + 1;
        }
        n
    }

    /// Recomputes every zone's `(mineral, energy)` tally from the grid.
    pub fn count_resources_in_zones(&mut self)
        requires
            old(self).wf(),
        ensures
            final(self).wf(),
            final(self).tallies_match(),
            final(self).width == old(self).width,
            final(self).height == old(self).height,
            final(self).grid == old(self).grid,
            final(self).current_turn == old(self).current_turn,
            zones_kept(old(self).zones@, final(self).zones@),
            forall|i: int| 0 <= i < old(self).zones@.len() ==> (#[trigger] final(self).zones@[i]).is_unlocked == old(self).zones@[i].is_unlocked,
    {
        let mut i: usize = 0;
        while i < self.zones.len()
            invariant
                self.wf(),
                i <= self.zones@.len(),
                self.width == old(self).width,
                self.height == old(self).height,
                self.grid == old(self).grid,
                self.current_turn == old(self).current_turn,
                zones_kept(old(self).zones@, self.zones@),
                forall|j: int| 0 <= j < old(self).zones@.len() ==> (#[trigger] self.zones@[j]).is_unlocked == old(self).zones@[j].is_unlocked,
                forall|j: int|
                    0 <= j < i ==> (#[trigger] self.zones@[j]).resource_count == (
                        self.zone_tally(self.zones@[j], Cell::Mineral) as u32,
                        self.zone_tally(self.zones@[j], Cell::Energy) as u32,
                    ),
            decreases self.zones@.len() - i,
        {
            let minerals = self.tally(&self.zones[i], Cell::Mineral);
            let energies = self.tally(&self.zones[i], Cell::Energy);
            self.zones[i].resource_count = (minerals, energies);
            i = i + 1;
        }
    }
}


/// The zone names, north-west, north-east, south-west, south-east.
pub open spec fn zone_name(i: int) -> Seq<char> {
    if i == 0 {
        "Nord-Ouest"@
    } else if i == 1 {
        "Nord-Est"@
    } else if i == 2 {
        "Sud-Ouest"@
    } else {
        "Sud-Est"@
    }
}

/// The cell that a new map holds at `(x, y)`: obstacles around the edge,
/// generated terrain inside.
pub open spec fn initial_cell(w: int, h: int, samples: Seq<Vec<i32>>, x: int, y: int) -> Cell {
    if on_border(w, h, x, y) {
        Cell::Obstacle
    } else {
        generated_cell(w, h, samples, x, y)
    }
}

/// `b` is `a` after unlocking the first locked zone containing `pos`, and
/// `r` the message naming it (`None` when there is no such zone).
pub open spec fn unlock_outcome(a: WorldMap, b: WorldMap, pos: (usize, usize), r: Option<String>) -> bool {
    let found = first_locked_from(a.zones@, pos.0 as int, pos.1 as int, 0);
    &&& b.zones@ == unlock_at(a.zones@, pos.0 as int, pos.1 as int)
    &&& zones_kept(a.zones@, b.zones@)
    &&& b.width == a.width
    &&& b.height == a.height
    &&& b.grid == a.grid
    &&& b.current_turn == a.current_turn
    &&& (r is Some <==> found is Some)
    &&& (r matches Some(m) ==> m@ == unlock_message(a.zones@[found->Some_0].name@))
}

impl WorldMap {
    /// Unlocks the first locked zone containing `science_pos`, returning a
    /// message naming it; `None` when no locked zone contains it.
    pub fn unlock_zone_with_science(&mut self, science_pos: (usize, usize)) -> (r: Option<String>)
        ensures
            unlock_outcome(*old(self), *final(self), science_pos, r),
    {
        let (x, y) = science_pos;
        let mut i: usize = 0;
        while i < self.zones.len()
            invariant
                *self == *old(self),
                x == science_pos.0,
                y == science_pos.1,
                i <= self.zones@.len(),
                first_locked_from(self.zones@, x as int, y as int, 0) == first_locked_from(self.zones@, x as int, y as int, i as int),
            decreases self.zones@.len() - i,
        {
            if self.zones[i].contains_point(x, y) && !self.zones[i].is_unlocked {
                proof {
                    assert(first_locked_from(self.zones@, x as int, y as int, i as int) == Some(i as int));
                }
                self.zones[i].unlock();
                let msg = String::from_str("Zone ").concat(self.zones[i].name.as_str()).concat(" débloquée");
                proof {
                    assert(self.zones@ =~= unlock_at(old(self).zones@, x as int, y as int));
                    lemma_unlock_all_kept(old(self).zones@, seq![(x, y)]);
                    assert(seq![(x, y)].drop_last() =~= Seq::<(usize, usize)>::empty());
                }
                return Some(msg);
            }
            i = i + 1;
        }
        proof {
            lemma_unlock_all_kept(old(self).zones@, Seq::<(usize, usize)>::empty());
        }
        None
    }

    /// `(unlocked zones, all zones)`.
    pub fn zone_stats(&self) -> (r: (usize, usize))
        ensures
            r.0 == unlocked_count(self.zones@),
            r.1 == self.zones@.len(),
    {
        let mut n: usize = 0;
        let mut i: usize = 0;
        while i < self.zones.len()
            invariant
                i <= self.zones@.len(),
                n == unlocked_count(self.zones@.take(i as int)),
            decreases self.zones@.len() - i,
        {
            proof {
                assert(self.zones@.take(i + 1).drop_last() =~= self.zones@.take(i as int));
                lemma_unlocked_count_bound(self.zones@.take(i as int));
            }
            if self.zones[i].is_unlocked {
                n = n + 1;
            }
            i = i + 1;
        }
        proof {
            assert(self.zones@.take(i as int) =~= self.zones@);
        }
        (n, self.zones.len())
    }

    /// Cells of kind `c` over the whole grid that lie in an unlocked zone.
    fn open_count(&self, c: Cell) -> (r: u32)
        requires
            self.wf(),
        ensures
            r == rect_count(open_cell_is(self.grid@, self.zones@, c), 0, self.width as int, 0, self.height as int),
    {
        let ghost p = open_cell_is(self.grid@, self.zones@, c);
        let mut n: u32 = 0;
        let mut y: usize = 0;
        while y < self.height
            invariant
                self.wf(),
                y <= self.height,
                p == open_cell_is(self.grid@, self.zones@, c),
                n == rect_count(p, 0, self.width as int, 0, y as int),
            decreases self.height - y,
        {
            let mut x: usize = 0;
            while x < self.width
                invariant
                    self.wf(),
                    x <= self.width,
                    y < self.height,
                    p == open_cell_is(self.grid@, self.zones@, c),
                    n == rect_count(p, 0, self.width as int, 0, y as int) + row_count(p, y as int, 0, x as int),
                decreases self.width - x,
            {
                proof {
                    lemma_rect_count_bound(p, 0, self.width as int, 0, y as int);
                    lemma_row_count_bound(p, y as int, 0, x as int);
                    assert(self.width * y + x < self.width * self.height) by (nonlinear_arith)
                        requires
                            x < self.width,
                            y < self.height,
                    ;
                }
                if self.grid[y][x] == c && self.is_resource_accessible(x, y) {
                    n = n + 1;
                }
                x = x + 1;
            }
            y = y + 1;
        }
        n
    }

    /// `(minerals, energies)` lying in unlocked zones, counted on the grid.
    pub fn accessible_resources(&self) -> (r: (u32, u32))
        requires
            self.wf(),
        ensures
            r.0 == rect_count(open_cell_is(self.grid@, self.zones@, Cell::Mineral), 0, self.width as int, 0, self.height as int),
            r.1 == rect_count(open_cell_is(self.grid@, self.zones@, Cell::Energy), 0, self.width as int, 0, self.height as int),
    {
        (self.open_count(Cell::Mineral), self.open_count(Cell::Energy))
    }

    /// Advances the turn counter.
    pub fn next_turn(&mut self)
        requires
            old(self).current_turn < u32::MAX,
        ensures
            final(self).current_turn == old(self).current_turn + 1,
            final(self).width == old(self).width,
            final(self).height == old(self).height,
            final(self).grid == old(self).grid,
            final(self).zones == old(self).zones,
    {
        self.current_turn = self.current_turn + 1;
    }

    /// The four locked quadrant zones of a `width` by `height` grid.
    fn create_zones(width: usize, height: usize) -> (zones: Vec<Zone>)
        requires
            width >= 2,
            height >= 2,
        ensures
            zones@.len() == 4,
            forall|i: int|
                0 <= i < 4 ==> {
                    &&& quadrant(width as int, height as int, i) == (
                        (#[trigger] zones@[i]).min_x as int,
                        zones@[i].max_x as int,
                        zones@[i].min_y as int,
                        zones@[i].max_y as int,
                    )
                    &&& zones@[i].id == i
                    &&& zones@[i].name@ == zone_name(i)
                    &&& !zones@[i].is_unlocked
                    &&& zones@[i].resource_count == (0u32, 0u32)
                },
    {
        let zw = width / 2;
        let zh = height / 2;
        let mut zones: Vec<Zone> = Vec::new();
        zones.push(Zone::new(0, String::from_str("Nord-Ouest"), 0, zw - 1, 0, zh - 1));
        zones.push(Zone::new(1, String::from_str("Nord-Est"), zw, width - 1, 0, zh - 1));
        zones.push(Zone::new(2, String::from_str("Sud-Ouest"), 0, zw - 1, zh, height - 1));
        zones.push(Zone::new(3, String::from_str("Sud-Est"), zw, width - 1, zh, height - 1));
        zones
    }

    /// A new map: generated terrain inside a ring of obstacles, four locked
    /// quadrant zones with their tallies, turn zero.
    pub fn new(width: usize, height: usize, samples: &Vec<Vec<i32>>) -> (map: WorldMap)
        requires
            width >= 2,
            height >= 2,
            width * height < u32::MAX,
            samples@.len() == height,
            forall|y: int| 0 <= y < height ==> #[trigger] samples@[y]@.len() == width,
        ensures
            map.wf(),
            map.width == width,
            map.height == height,
            map.current_turn == 0,
            forall|x: int, y: int|
                map.in_bounds(x, y) ==> #[trigger] map.cell(x, y) == initial_cell(
                    width as int,
                    height as int,
                    samples@,
                    x,
                    y,
                ),
            map.quadrant_zones(),
            forall|i: int|
                0 <= i < 4 ==> (#[trigger] map.zones@[i]).id == i && map.zones@[i].name@ == zone_name(i)
                    && !map.zones@[i].is_unlocked,
            map.tallies_match(),
    {
        let mut grid = generate_noise(width, height, samples);
        let mut x: usize = 0;
        while x < width
            invariant
                x <= width,
                width >= 2,
                height >= 2,
                grid@.len() == height,
                forall|j: int| 0 <= j < height ==> #[trigger] grid@[j]@.len() == width,
                forall|a: int, b: int|
                    0 <= a < width && 0 <= b < height ==> #[trigger] grid@[b]@[a] == if (b == 0 || b == height - 1)
                        && a < x {
                        Cell::Obstacle
                    } else {
                        generated_cell(width as int, height as int, samples@, a, b)
                    },
            decreases width - x,
        {
            grid[0][x] = Cell::Obstacle;
            grid[height - 1][x] = Cell::Obstacle;
            x = x + 1;
        }
        let mut y: usize = 0;
        while y < height
            invariant
                y <= height,
                width >= 2,
                height >= 2,
                grid@.len() == height,
                forall|j: int| 0 <= j < height ==> #[trigger] grid@[j]@.len() == width,
                forall|a: int, b: int|
                    0 <= a < width && 0 <= b < height ==> #[trigger] grid@[b]@[a] == if b == 0 || b == height - 1
                        || ((a == 0 || a == width - 1) && b < y) {
                        Cell::Obstacle
                    } else {
                        generated_cell(width as int, height as int, samples@, a, b)
                    },
            decreases height - y,
        {
            grid[y][0] = Cell::Obstacle;
            grid[y][width - 1] = Cell::Obstacle;
            y = y + 1;
        }
        let zones = Self::create_zones(width, height);
        let mut map = WorldMap { width, height, grid, zones, current_turn: 0 };
        map.count_resources_in_zones();
        map
    }
}


/// Exactly one zone's bounds contain `(x, y)`.
pub open spec fn in_one_zone(zones: Seq<Zone>, x: int, y: int) -> bool {
    &&& exists|i: int| 0 <= i < zones.len() && #[trigger] zones[i].contains(x, y)
    &&& forall|i: int, j: int|
        0 <= i < zones.len() && 0 <= j < zones.len() && #[trigger] zones[i].contains(x, y)
            && #[trigger] zones[j].contains(x, y) ==> i == j
}

/// The zones of a map laid out as quadrants (as `WorldMap::new` lays them
/// out) partition the grid: every cell lies in exactly one zone.
pub proof fn lemma_zone_partition(map: &WorldMap)
    requires
        map.width >= 2,
        map.height >= 2,
        map.quadrant_zones(),
    ensures
        forall|x: int, y: int| map.in_bounds(x, y) ==> #[trigger] in_one_zone(map.zones@, x, y),
{
    let (w, h) = (map.width as int, map.height as int);
    lemma_quadrants_partition(w, h);
    assert forall|x: int, y: int| map.in_bounds(x, y) implies #[trigger] in_one_zone(map.zones@, x, y) by {
        assert(in_one_quadrant(w, h, x, y));
        assert forall|i: int| 0 <= i < 4 implies #[trigger] map.zones@[i].contains(x, y) == in_quadrant(w, h, i, x, y) by {
            assert(quadrant(w, h, i).0 == map.zones@[i].min_x);
        }
        let i = choose|i: int| 0 <= i < 4 && #[trigger] in_quadrant(w, h, i, x, y);
        assert(map.zones@[i].contains(x, y));
    }
}

} // verus!

use vstd::prelude::*;
use crate::cell::Cell;
use crate::world::{first_zone_from, zone_index_at, WorldMap};
use crate::zone::Zone;

verus! {

/// How hidden resources (Mineral, Energy) are judged during a search.
#[derive(Debug, Clone, Copy, PartialEq, Eq, Structural)]
pub enum Visibility {
    /// Only the global reveal flag lifts the restriction.
    GlobalOnly,
    /// The global reveal flag, or the unlocked zone holding the cell, lifts it.
    PerZone,
}

/// What a search looks for.
#[derive(Debug, Clone, Copy, PartialEq, Eq, Structural)]
pub enum Goal {
    /// The nearest cell of this kind that may be taken.
    Kind(Cell),
    /// This exact position.
    At(usize, usize),
    /// This position, searched from elsewhere: the cells from which it can
    /// be walked to are those that it can reach. It counts as enterable.
    Origin(usize, usize),
}

/// The parameters of one breadth-first search.
#[derive(Debug, Clone, Copy, PartialEq, Eq, Structural)]
pub struct Search {
    pub visibility: Visibility,
    pub goal: Goal,
    pub revealed: bool,
}

/// Marks a cell that the search has not reached.
pub const UNSEEN: usize = usize::MAX;

// Neighbour order: down, right, up, left (directions 0, 1, 2, 3).
pub open spec fn dir_dx(d: int) -> int {
    if d == 1 {
        1
    } else if d == 3 {
        -1
    } else {
        0
    }
}

pub open spec fn dir_dy(d: int) -> int {
    if d == 0 {
        1
    } else if d == 2 {
        -1
    } else {
        0
    }
}

/// The blocking rule: walls and obstacles always block; a hidden resource
/// blocks unless revealed (globally, or through its zone in `PerZone` mode).
pub open spec fn blocked(map: &WorldMap, vis: Visibility, revealed: bool, x: int, y: int) -> bool {
    let c = map.cell(x, y);
    c.is_terrain_block() || (c.is_hidden_kind() && !revealed && (vis == Visibility::GlobalOnly
        || !map.accessible(x, y)))
}

/// A cell that a path may step onto. The target of a positional search may
/// be entered despite its terrain when its zone is unlocked or all is revealed.
pub open spec fn enterable(map: &WorldMap, s: Search, x: int, y: int) -> bool {
    &&& map.in_bounds(x, y)
    &&& (!blocked(map, s.visibility, s.revealed, x, y) || (s.goal matches Goal::At(tx, ty) && tx
        == x && ty == y && (s.revealed || map.accessible(x, y))) || (s.goal matches Goal::Origin(ox, oy)
        && ox == x && oy == y))
}

/// A cell at which the search stops.
pub open spec fn accepted(map: &WorldMap, s: Search, x: int, y: int) -> bool {
    &&& map.in_bounds(x, y)
    &&& match s.goal {
        Goal::Kind(c) => map.cell(x, y) == c && match s.visibility {
            Visibility::GlobalOnly => !c.is_hidden_kind() || s.revealed,
            Visibility::PerZone => s.revealed || map.accessible(x, y),
        },
        Goal::At(tx, ty) => x == tx && y == ty,
        Goal::Origin(ox, oy) => x == ox && y == oy,
    }
}

/// Some path of at most `k` steps leads from `(x, y)` to an accepted cell,
/// every cell after the first being enterable.
pub open spec fn hits(map: &WorldMap, s: Search, k: nat, x: int, y: int) -> bool
    decreases k,
{
    if k == 0 {
        accepted(map, s, x, y)
    } else {
        let j = (k - 1) as nat;
        ||| hits(map, s, j, x, y)
        ||| (enterable(map, s, x, y + 1) && hits(map, s, j, x, y + 1))
        ||| (enterable(map, s, x + 1, y) && hits(map, s, j, x + 1, y))
        ||| (enterable(map, s, x, y - 1) && hits(map, s, j, x, y - 1))
        ||| (enterable(map, s, x - 1, y) && hits(map, s, j, x - 1, y))
    }
}

/// Stepping in direction `d` reaches an enterable cell within `k` steps of
/// an accepted one.
pub open spec fn step_hits(map: &WorldMap, s: Search, k: nat, x: int, y: int, d: int) -> bool {
    enterable(map, s, x + dir_dx(d), y + dir_dy(d)) && hits(map, s, k, x + dir_dx(d), y + dir_dy(d))
}

/// The first direction, in neighbour order, that keeps a path of `k` more steps.
pub open spec fn first_dir(map: &WorldMap, s: Search, k: nat, x: int, y: int) -> int {
    if step_hits(map, s, k, x, y, 0) {
        0
    } else if step_hits(map, s, k, x, y, 1) {
        1
    } else if step_hits(map, s, k, x, y, 2) {
        2
    } else {
        3
    }
}

/// Follows `first_dir` for `k` steps: the end of the first shortest path in
/// neighbour order.
pub open spec fn walk(map: &WorldMap, s: Search, k: nat, x: int, y: int) -> (int, int)
    decreases k,
{
    if k == 0 {
        (x, y)
    } else {
        let d = first_dir(map, s, (k - 1) as nat, x, y);
        walk(map, s, (k - 1) as nat, x + dir_dx(d), y + dir_dy(d))
    }
}

/// `k` is the length of the shortest path from `(x, y)` to an accepted cell.
pub open spec fn exact(map: &WorldMap, s: Search, k: nat, x: int, y: int) -> bool {
    hits(map, s, k, x, y) && (k == 0 || !hits(map, s, (k - 1) as nat, x, y))
}

pub open spec fn reachable(map: &WorldMap, s: Search, x: int, y: int) -> bool {
    exists|k: nat| hits(map, s, k, x, y)
}

pub open spec fn distance(map: &WorldMap, s: Search, x: int, y: int) -> nat {
    choose|k: nat| exact(map, s, k, x, y)
}

/// The accepted cell reached from `(x, y)` by a shortest path that takes, at
/// each step, the first direction in neighbour order that stays shortest:
/// the accepted cell that a breadth-first search visiting neighbours in that
/// order meets first.
pub open spec fn nearest(map: &WorldMap, s: Search, x: int, y: int) -> Option<(int, int)> {
    if reachable(map, s, x, y) {
        Some(walk(map, s, distance(map, s, x, y), x, y))
    } else {
        None
    }
}

/// The first step of the path that `nearest` follows, if the start is not
/// itself accepted.
pub open spec fn first_step(map: &WorldMap, s: Search, x: int, y: int) -> Option<(int, int)> {
    if reachable(map, s, x, y) && distance(map, s, x, y) > 0 {
        let d = first_dir(map, s, (distance(map, s, x, y) - 1) as nat, x, y);
        Some((dir_dx(d), dir_dy(d)))
    } else {
        None
    }
}

pub proof fn lemma_hits_mono(map: &WorldMap, s: Search, k: nat, m: nat, x: int, y: int)
    requires
        k <= m,
        hits(map, s, k, x, y),
    ensures
        hits(map, s, m, x, y),
    decreases m - k,
{
    if k < m {
        lemma_hits_mono(map, s, k, (m - 1) as nat, x, y);
    }
}

pub proof fn lemma_exact_unique(map: &WorldMap, s: Search, k1: nat, k2: nat, x: int, y: int)
    requires
        exact(map, s, k1, x, y),
        exact(map, s, k2, x, y),
    ensures
        k1 == k2,
{
    if k1 < k2 {
        lemma_hits_mono(map, s, k1, (k2 - 1) as nat, x, y);
    } else if k2 < k1 {
        lemma_hits_mono(map, s, k2, (k1 - 1) as nat, x, y);
    }
}

pub proof fn lemma_distance(map: &WorldMap, s: Search, k: nat, x: int, y: int)
    requires
        exact(map, s, k, x, y),
    ensures
        reachable(map, s, x, y),
        distance(map, s, x, y) == k,
{
    let d = distance(map, s, x, y);
    lemma_exact_unique(map, s, k, d, x, y);
}

/// When level `k + 1` adds nothing, no level beyond `k` does.
proof fn lemma_stable(map: &WorldMap, s: Search, k: nat, m: nat, x: int, y: int)
    requires
        forall|a: int, b: int| #[trigger] hits(map, s, k + 1, a, b) ==> hits(map, s, k, a, b),
        hits(map, s, m, x, y),
    ensures
        hits(map, s, k, x, y),
    decreases m,
{
    if m <= k {
        lemma_hits_mono(map, s, m, k, x, y);
    } else {
        let j = (m - 1) as nat;
        if hits(map, s, j, x, y) {
            lemma_stable(map, s, k, j, x, y);
        } else if enterable(map, s, x, y + 1) && hits(map, s, j, x, y + 1) {
            lemma_stable(map, s, k, j, x, y + 1);
        } else if enterable(map, s, x + 1, y) && hits(map, s, j, x + 1, y) {
            lemma_stable(map, s, k, j, x + 1, y);
        } else if enterable(map, s, x, y - 1) && hits(map, s, j, x, y - 1) {
            lemma_stable(map, s, k, j, x, y - 1);
        } else {
            lemma_stable(map, s, k, j, x - 1, y);
        }
        assert(hits(map, s, k + 1, x, y));
    }
}


// ---- breadth-first search over levels ----

pub open spec fn row_seen(r: Seq<usize>) -> nat
    decreases r.len(),
{
    if r.len() == 0 {
        0
    } else {
        row_seen(r.drop_last()) + if r.last() != UNSEEN {
            1nat
        } else {
            0nat
        }
    }
}

/// Number of cells that a level table has reached.
pub open spec fn seen_count(d: Seq<Vec<usize>>) -> nat
    decreases d.len(),
{
    if d.len() == 0 {
        0
    } else {
        seen_count(d.drop_last()) + row_seen(d.last()@)
    }
}

proof fn lemma_row_seen_bound(r: Seq<usize>)
    ensures
        row_seen(r) <= r.len(),
    decreases r.len(),
{
    if r.len() > 0 {
        lemma_row_seen_bound(r.drop_last());
    }
}

proof fn lemma_row_seen_update(r: Seq<usize>, i: int, v: usize)
    requires
        0 <= i < r.len(),
        r[i] == UNSEEN,
        v != UNSEEN,
    ensures
        row_seen(r.update(i, v)) == row_seen(r) + 1,
    decreases r.len(),
{
    let r2 = r.update(i, v);
    if i == r.len() - 1 {
        assert(r2.drop_last() =~= r.drop_last());
    } else {
        assert(r2.drop_last() =~= r.drop_last().update(i, v));
        lemma_row_seen_update(r.drop_last(), i, v);
    }
}

proof fn lemma_seen_count_bound(d: Seq<Vec<usize>>, w: int)
    requires
        forall|j: int| 0 <= j < d.len() ==> #[trigger] d[j]@.len() == w,
    ensures
        seen_count(d) <= d.len() * w,
    decreases d.len(),
{
    if d.len() > 0 {
        lemma_seen_count_bound(d.drop_last(), w);
        lemma_row_seen_bound(d.last()@);
        assert(d.len() * w == (d.len() - 1) * w + w) by (nonlinear_arith);
    }
}

proof fn lemma_seen_count_row_change(d: Seq<Vec<usize>>, d2: Seq<Vec<usize>>, y: int)
    requires
        0 <= y < d.len(),
        d2.len() == d.len(),
        forall|j: int| 0 <= j < d.len() && j != y ==> d2[j] == d[j],
    ensures
        seen_count(d2) == seen_count(d) - row_seen(d[y]@) + row_seen(d2[y]@),
    decreases d.len(),
{
    if y == d.len() - 1 {
        assert(d2.drop_last() =~= d.drop_last());
    } else {
        lemma_seen_count_row_change(d.drop_last(), d2.drop_last(), y);
    }
}

pub open spec fn shaped(map: &WorldMap, d: Seq<Vec<usize>>) -> bool {
    &&& d.len() == map.height
    &&& forall|y: int| 0 <= y < map.height ==> #[trigger] d[y]@.len() == map.width
}

/// Every reached cell carries its exact distance, at most `top`.
pub open spec fn levels_exact(map: &WorldMap, s: Search, d: Seq<Vec<usize>>, top: int) -> bool {
    forall|x: int, y: int|
        map.in_bounds(x, y) && #[trigger] d[y]@[x] != UNSEEN ==> d[y]@[x] <= top && exact(
            map,
            s,
            d[y]@[x] as nat,
            x,
            y,
        )
}

/// Every cell within `level` steps of an accepted cell has been reached.
pub open spec fn levels_complete(map: &WorldMap, s: Search, d: Seq<Vec<usize>>, level: nat) -> bool {
    forall|x: int, y: int| map.in_bounds(x, y) && hits(map, s, level, x, y) ==> #[trigger] d[y]@[x] != UNSEEN
}

/// `list` holds exactly the cells whose level is `lv`.
pub open spec fn lists_level(map: &WorldMap, d: Seq<Vec<usize>>, list: Seq<(usize, usize)>, lv: usize) -> bool {
    &&& forall|j: int|
        0 <= j < list.len() ==> map.in_bounds(#[trigger] list[j].0 as int, list[j].1 as int) && d[list[j].1 as int]@[list[j].0 as int] == lv
    &&& forall|x: int, y: int|
        map.in_bounds(x, y) && #[trigger] d[y]@[x] == lv ==> list.contains((x as usize, y as usize))
}

pub open spec fn reached_or_out(map: &WorldMap, d: Seq<Vec<usize>>, x: int, y: int) -> bool {
    !map.in_bounds(x, y) || d[y]@[x] != UNSEEN
}

/// Every neighbour of an enterable cell has been reached.
pub open spec fn settled(map: &WorldMap, s: Search, d: Seq<Vec<usize>>, x: int, y: int) -> bool {
    enterable(map, s, x, y) ==> {
        &&& reached_or_out(map, d, x, y + 1)
        &&& reached_or_out(map, d, x + 1, y)
        &&& reached_or_out(map, d, x, y - 1)
        &&& reached_or_out(map, d, x - 1, y)
    }
}

/// Whether the cell at `(x, y)` blocks movement, following the blocking
/// rule in the given visibility mode.
pub fn is_blocked(map: &WorldMap, vis: Visibility, x: usize, y: usize, revealed: bool) -> (r: bool)
    requires
        map.wf(),
        map.in_bounds(x as int, y as int),
    ensures
        r == blocked(map, vis, revealed, x as int, y as int),
{
    let c = map.cell_at(x, y);
    if c.is_wall_or_obstacle() {
        true
    } else if !c.is_mineral_or_energy() || revealed {
        false
    } else {
        match vis {
            Visibility::GlobalOnly => true,
            Visibility::PerZone => !map.is_resource_accessible(x, y),
        }
    }
}

fn is_enterable(map: &WorldMap, s: &Search, x: usize, y: usize) -> (r: bool)
    requires
        map.wf(),
        map.in_bounds(x as int, y as int),
    ensures
        r == enterable(map, *s, x as int, y as int),
{
    if !is_blocked(map, s.visibility, x, y, s.revealed) {
        true
    } else {
        match s.goal {
            Goal::At(tx, ty) => tx == x && ty == y && (s.revealed || map.is_resource_accessible(x, y)),
            Goal::Origin(ox, oy) => ox == x && oy == y,
            Goal::Kind(_) => false,
        }
    }
}

fn is_accepted(map: &WorldMap, s: &Search, x: usize, y: usize) -> (r: bool)
    requires
        map.wf(),
        map.in_bounds(x as int, y as int),
    ensures
        r == accepted(map, *s, x as int, y as int),
{
    match s.goal {
        Goal::Kind(c) => {
            if map.cell_at(x, y) != c {
                false
            } else {
                match s.visibility {
                    Visibility::GlobalOnly => !c.is_mineral_or_energy() || s.revealed,
                    Visibility::PerZone => s.revealed || map.is_resource_accessible(x, y),
                }
            }
        }
        Goal::At(tx, ty) => tx == x && ty == y,
        Goal::Origin(ox, oy) => ox == x && oy == y,
    }
}

/// The neighbour of `(x, y)` in direction `d`, when it lies on the grid.
fn neighbor(map: &WorldMap, x: usize, y: usize, d: usize) -> (r: Option<(usize, usize)>)
    requires
        d < 4,
    ensures
        r matches Some((nx, ny)) ==> nx == x + dir_dx(d as int) && ny == y + dir_dy(d as int)
            && map.in_bounds(nx as int, ny as int),
        r is None ==> !map.in_bounds(x + dir_dx(d as int), y + dir_dy(d as int)),
{
    if d == 0 {
        if x < map.width && y < map.height && y + 1 < map.height {
            Some((x, y + 1))
        } else {
            None
        }
    } else if d == 1 {
        if y < map.height && x < map.width && x + 1 < map.width {
            Some((x + 1, y))
        } else {
            None
        }
    } else if d == 2 {
        if y > 0 && y - 1 < map.height && x < map.width {
            Some((x, y - 1))
        } else {
            None
        }
    } else {
        if x > 0 && x - 1 < map.width && y < map.height {
            Some((x - 1, y))
        } else {
            None
        }
    }
}

/// Sets the level of an unreached cell.
fn mark(map: &WorldMap, dist: &mut Vec<Vec<usize>>, x: usize, y: usize, v: usize)
    requires
        shaped(map, old(dist)@),
        map.in_bounds(x as int, y as int),
        old(dist)@[y as int]@[x as int] == UNSEEN,
        v != UNSEEN,
    ensures
        shaped(map, final(dist)@),
        forall|a: int, b: int|
            map.in_bounds(a, b) ==> #[trigger] final(dist)@[b]@[a] == if a == x && b == y {
                v
            } else {
                old(dist)@[b]@[a]
            },
        seen_count(final(dist)@) == seen_count(old(dist)@) + 1,
{
    dist[y][x] = v;
    proof {
        lemma_row_seen_update(old(dist)@[y as int]@, x as int, v);
        lemma_seen_count_row_change(old(dist)@, dist@, y as int);
    }
}


proof fn lemma_push_contains(f: Seq<(usize, usize)>, e: (usize, usize), v: (usize, usize))
    requires
        f.contains(v) || e == v,
    ensures
        f.push(e).contains(v),
{
    if e == v {
        assert(f.push(e)[f.len() as int] == v);
    } else {
        let k = choose|k: int| 0 <= k < f.len() && f[k] == v;
        assert(f.push(e)[k] == v);
    }
}

/// A cell next to `(nx, ny)`, which is within `level` steps and enterable,
/// is reached once the whole of level `level` has been settled.
proof fn lemma_reached_via(
    map: &WorldMap,
    s: Search,
    d: Seq<Vec<usize>>,
    frontier: Seq<(usize, usize)>,
    level: nat,
    x: int,
    y: int,
    nx: int,
    ny: int,
)
    requires
        shaped(map, d),
        levels_exact(map, s, d, level + 1 as int),
        levels_complete(map, s, d, level),
        lists_level(map, d, frontier, level as usize),
        level < UNSEEN,
        forall|i: int| 0 <= i < frontier.len() ==> settled(map, s, d, #[trigger] frontier[i].0 as int, frontier[i].1 as int),
        map.in_bounds(x, y),
        (nx == x && ny == y + 1) || (nx == x + 1 && ny == y) || (nx == x && ny == y - 1) || (nx == x - 1 && ny == y),
        enterable(map, s, nx, ny),
        hits(map, s, level, nx, ny),
    ensures
        d[y]@[x] != UNSEEN,
{
    assert(d[ny]@[nx] != UNSEEN);
    let dn = d[ny]@[nx] as nat;
    if dn > level {
        lemma_hits_mono(map, s, level, (dn - 1) as nat, nx, ny);
    }
    if dn == level {
        assert(frontier.contains((nx as usize, ny as usize)));
        let i = choose|i: int| 0 <= i < frontier.len() && frontier[i] == (nx as usize, ny as usize);
        assert(settled(map, s, d, frontier[i].0 as int, frontier[i].1 as int));
    } else {
        assert(hits(map, s, (dn + 1) as nat, x, y));
        lemma_hits_mono(map, s, (dn + 1) as nat, level, x, y);
    }
}

proof fn lemma_complete_next(
    map: &WorldMap,
    s: Search,
    d: Seq<Vec<usize>>,
    frontier: Seq<(usize, usize)>,
    level: nat,
)
    requires
        shaped(map, d),
        levels_exact(map, s, d, level + 1 as int),
        levels_complete(map, s, d, level),
        lists_level(map, d, frontier, level as usize),
        level < UNSEEN,
        forall|i: int| 0 <= i < frontier.len() ==> settled(map, s, d, #[trigger] frontier[i].0 as int, frontier[i].1 as int),
    ensures
        levels_complete(map, s, d, level + 1),
{
    assert forall|x: int, y: int| map.in_bounds(x, y) && hits(map, s, level + 1, x, y) implies #[trigger] d[y]@[x] != UNSEEN by {
        if hits(map, s, level, x, y) {
        } else if enterable(map, s, x, y + 1) && hits(map, s, level, x, y + 1) {
            lemma_reached_via(map, s, d, frontier, level, x, y, x, y + 1);
        } else if enterable(map, s, x + 1, y) && hits(map, s, level, x + 1, y) {
            lemma_reached_via(map, s, d, frontier, level, x, y, x + 1, y);
        } else if enterable(map, s, x, y - 1) && hits(map, s, level, x, y - 1) {
            lemma_reached_via(map, s, d, frontier, level, x, y, x, y - 1);
        } else {
            lemma_reached_via(map, s, d, frontier, level, x, y, x - 1, y);
        }
    }
}

/// With no cell at level `level`, the search cannot grow any further.
proof fn lemma_no_growth(map: &WorldMap, s: Search, d: Seq<Vec<usize>>, level: nat, x: int, y: int, m: nat)
    requires
        shaped(map, d),
        levels_exact(map, s, d, level as int),
        levels_complete(map, s, d, level),
        forall|a: int, b: int| map.in_bounds(a, b) ==> #[trigger] d[b]@[a] != level,
        hits(map, s, m, x, y),
    ensures
        hits(map, s, level, x, y),
{
    assert forall|a: int, b: int| #[trigger] hits(map, s, level + 1, a, b) implies hits(map, s, level, a, b) by {
        if !hits(map, s, level, a, b) {
            let (na, nb) = if enterable(map, s, a, b + 1) && hits(map, s, level, a, b + 1) {
                (a, b + 1)
            } else if enterable(map, s, a + 1, b) && hits(map, s, level, a + 1, b) {
                (a + 1, b)
            } else if enterable(map, s, a, b - 1) && hits(map, s, level, a, b - 1) {
                (a, b - 1)
            } else {
                (a - 1, b)
            };
            assert(d[nb]@[na] != UNSEEN);
            let dn = d[nb]@[na] as nat;
            assert(d[nb]@[na] != level);
            assert(hits(map, s, dn + 1, a, b));
            lemma_hits_mono(map, s, dn + 1, level, a, b);
        }
    }
    lemma_stable(map, s, level, m, x, y);
}

/// A table of `width` by `height` unreached cells.
fn unreached_table(map: &WorldMap) -> (dist: Vec<Vec<usize>>)
    ensures
        shaped(map, dist@),
        forall|a: int, b: int| map.in_bounds(a, b) ==> #[trigger] dist@[b]@[a] == UNSEEN,
        seen_count(dist@) == 0,
{
    let mut dist: Vec<Vec<usize>> = Vec::new();
    let mut y: usize = 0;
    while y < map.height
        invariant
            y <= map.height,
            dist@.len() == y,
            forall|j: int| 0 <= j < y ==> #[trigger] dist@[j]@.len() == map.width,
            forall|a: int, b: int| 0 <= b < y && 0 <= a < map.width ==> #[trigger] dist@[b]@[a] == UNSEEN,
            seen_count(dist@) == 0,
        decreases map.height - y,
    {
        let mut row: Vec<usize> = Vec::new();
        let mut x: usize = 0;
        while x < map.width
            invariant
                x <= map.width,
                row@.len() == x,
                forall|a: int| 0 <= a < x ==> #[trigger] row@[a] == UNSEEN,
                row_seen(row@) == 0,
            decreases map.width - x,
        {
            proof {
                assert(row@.push(UNSEEN).drop_last() =~= row@);
            }
            row.push(UNSEEN);
            x = x + 1;
        }
        proof {
            assert(dist@.push(row).drop_last() =~= dist@);
        }
        dist.push(row);
        y = y + 1;
    }
    dist
}

/// Breadth-first search outward from every accepted cell at once: each cell
/// receives the length of its shortest path to an accepted cell, or `UNSEEN`
/// when there is none.
fn search_levels(map: &WorldMap, s: Search) -> (dist: Vec<Vec<usize>>)
    requires
        map.wf(),
    ensures
        shaped(map, dist@),
        levels_exact(map, s, dist@, UNSEEN as int),
        forall|x: int, y: int|
            map.in_bounds(x, y) && #[trigger] dist@[y]@[x] == UNSEEN ==> !reachable(map, s, x, y),
{
    let mut dist = unreached_table(map);
    let mut frontier: Vec<(usize, usize)> = Vec::new();
    let mut y: usize = 0;
    while y < map.height
        invariant
            map.wf(),
            y <= map.height,
            shaped(map, dist@),
            forall|a: int, b: int|
                map.in_bounds(a, b) ==> #[trigger] dist@[b]@[a] == if b < y && accepted(map, s, a, b) {
                    0
                } else {
                    UNSEEN
                },
            lists_level(map, dist@, frontier@, 0),
            seen_count(dist@) == frontier@.len(),
        decreases map.height - y,
    {
        let mut x: usize = 0;
        while x < map.width
            invariant
                map.wf(),
                y < map.height,
                x <= map.width,
                shaped(map, dist@),
                forall|a: int, b: int|
                    map.in_bounds(a, b) ==> #[trigger] dist@[b]@[a] == if (b < y || (b == y && a < x))
                        && accepted(map, s, a, b) {
                        0
                    } else {
                        UNSEEN
                    },
                lists_level(map, dist@, frontier@, 0),
                seen_count(dist@) == frontier@.len(),
            decreases map.width - x,
        {
            if is_accepted(map, &s, x, y) {
                let ghost d0 = dist@;
                let ghost f0 = frontier@;
                mark(map, &mut dist, x, y, 0);
                frontier.push((x, y));
                proof {
                    assert forall|a: int, b: int|
                        map.in_bounds(a, b) && #[trigger] dist@[b]@[a] == 0 implies frontier@.contains(
                        (a as usize, b as usize),
                    ) by {
                        if !(a == x && b == y) {
                            assert(d0[b]@[a] == 0);
                        }
                        lemma_push_contains(f0, (x, y), (a as usize, b as usize));
                    }
                }
            }
            x = x + 1;
        }
        y = y + 1;
    }
    proof {
        lemma_seen_count_bound(dist@, map.width as int);
        assert(map.height * map.width == map.width * map.height) by (nonlinear_arith);
        assert(levels_exact(map, s, dist@, 0));
        assert(levels_complete(map, s, dist@, 0));
    }
    let mut level: usize = 0;
    while frontier.len() > 0
        invariant
            map.wf(),
            shaped(map, dist@),
            levels_exact(map, s, dist@, level as int),
            levels_complete(map, s, dist@, level as nat),
            lists_level(map, dist@, frontier@, level),
            frontier@.len() > 0 ==> level < seen_count(dist@),
            seen_count(dist@) <= map.width * map.height,
        decreases map.width * map.height - seen_count(dist@), frontier@.len(),
    {
        let ghost seen0 = seen_count(dist@);
        let mut next: Vec<(usize, usize)> = Vec::new();
        let mut j: usize = 0;
        while j < frontier.len()
            invariant
                map.wf(),
                shaped(map, dist@),
                level < seen0,
                seen0 <= map.width * map.height,
                levels_exact(map, s, dist@, level + 1),
                levels_complete(map, s, dist@, level as nat),
                lists_level(map, dist@, frontier@, level),
                lists_level(map, dist@, next@, (level + 1) as usize),
                forall|i: int| 0 <= i < j ==> settled(map, s, dist@, #[trigger] frontier@[i].0 as int, frontier@[i].1 as int),
                seen_count(dist@) == seen0 + next@.len(),
                j <= frontier@.len(),
            decreases frontier@.len() - j,
        {
            let (vx, vy) = frontier[j];
            if is_enterable(map, &s, vx, vy) {
                let mut d: usize = 0;
                while d < 4
                    invariant
                        map.wf(),
                        shaped(map, dist@),
                        level < seen0,
                        seen0 <= map.width * map.height,
                        levels_exact(map, s, dist@, level + 1),
                        levels_complete(map, s, dist@, level as nat),
                        lists_level(map, dist@, frontier@, level),
                        lists_level(map, dist@, next@, (level + 1) as usize),
                        forall|i: int| 0 <= i < j ==> settled(map, s, dist@, #[trigger] frontier@[i].0 as int, frontier@[i].1 as int),
                        seen_count(dist@) == seen0 + next@.len(),
                        j < frontier@.len(),
                        frontier@[j as int] == (vx, vy),
                        enterable(map, s, vx as int, vy as int),
                        d <= 4,
                        forall|e: int| 0 <= e < d ==> reached_or_out(map, dist@, vx + #[trigger] dir_dx(e), vy + dir_dy(e)),
                    decreases 4 - d,
                {
                    match neighbor(map, vx, vy, d) {
                        Some((nx, ny)) => {
                            if dist[ny][nx] == UNSEEN {
                                proof {
                                    assert(map.in_bounds(frontier@[j as int].0 as int, frontier@[j as int].1 as int));
                                    assert(dist@[vy as int]@[vx as int] == level);
                                    assert(hits(map, s, level as nat, vx as int, vy as int));
                                    assert(hits(map, s, (level + 1) as nat, nx as int, ny as int));
                                }
                                let ghost d0 = dist@;
                                let ghost n0 = next@;
                                mark(map, &mut dist, nx, ny, level + 1);
                                next.push((nx, ny));
                                proof {
                                    lemma_seen_count_bound(dist@, map.width as int);
                                    assert(map.height * map.width == map.width * map.height) by (nonlinear_arith);
                                    assert forall|a: int, b: int|
                                        map.in_bounds(a, b) && #[trigger] dist@[b]@[a] == level + 1 implies next@.contains(
                                        (a as usize, b as usize),
                                    ) by {
                                        if !(a == nx && b == ny) {
                                            assert(d0[b]@[a] == level + 1);
                                        }
                                        lemma_push_contains(n0, (nx, ny), (a as usize, b as usize));
                                    }
                                }
                            }
                        }
                        None => {}
                    }
                    d = d + 1;
                }
                proof {
                    assert(reached_or_out(map, dist@, vx + dir_dx(0), vy + dir_dy(0)));
                    assert(reached_or_out(map, dist@, vx + dir_dx(1), vy + dir_dy(1)));
                    assert(reached_or_out(map, dist@, vx + dir_dx(2), vy + dir_dy(2)));
                    assert(reached_or_out(map, dist@, vx + dir_dx(3), vy + dir_dy(3)));
                }
            }
            j = j + 1;
        }
        proof {
            lemma_complete_next(map, s, dist@, frontier@, level as nat);
            lemma_seen_count_bound(dist@, map.width as int);
            assert(map.height * map.width == map.width * map.height) by (nonlinear_arith);
        }
        frontier = next;
        level = level + 1;
    }
    proof {
        assert forall|x: int, y: int|
            map.in_bounds(x, y) && #[trigger] dist@[y]@[x] == UNSEEN implies !reachable(map, s, x, y) by {
            if reachable(map, s, x, y) {
                let m = choose|m: nat| hits(map, s, m, x, y);
                assert forall|a: int, b: int| map.in_bounds(a, b) implies #[trigger] dist@[b]@[a] != level by {
                    if dist@[b]@[a] == level {
                        assert(frontier@.contains((a as usize, b as usize)));
                    }
                }
                lemma_no_growth(map, s, dist@, level as nat, x, y, m);
            }
        }
    }
    dist
}


/// What `search_levels` guarantees of its table.
pub open spec fn levels_final(map: &WorldMap, s: Search, d: Seq<Vec<usize>>) -> bool {
    &&& shaped(map, d)
    &&& levels_exact(map, s, d, UNSEEN as int)
    &&& forall|x: int, y: int| map.in_bounds(x, y) && #[trigger] d[y]@[x] == UNSEEN ==> !reachable(map, s, x, y)
}

/// Whenever some path exists, a shortest one does.
pub proof fn lemma_exact_exists(map: &WorldMap, s: Search, k: nat, x: int, y: int)
    requires
        hits(map, s, k, x, y),
    ensures
        exact(map, s, distance(map, s, x, y), x, y),
        distance(map, s, x, y) <= k,
    decreases k,
{
    if k > 0 && hits(map, s, (k - 1) as nat, x, y) {
        lemma_exact_exists(map, s, (k - 1) as nat, x, y);
    } else {
        lemma_distance(map, s, k, x, y);
    }
}

/// On a shortest path of `k > 0` steps, `first_dir` names a step that keeps
/// a path of `k - 1` steps.
pub proof fn lemma_first_dir_steps(map: &WorldMap, s: Search, k: nat, x: int, y: int)
    requires
        k > 0,
        exact(map, s, k, x, y),
    ensures
        0 <= first_dir(map, s, (k - 1) as nat, x, y) < 4,
        step_hits(map, s, (k - 1) as nat, x, y, first_dir(map, s, (k - 1) as nat, x, y)),
{
}

/// The first direction from `(x, y)`, which lies `k > 0` steps from an
/// accepted cell, whose neighbour lies `k - 1` steps from one.
fn closer_direction(map: &WorldMap, s: &Search, dist: &Vec<Vec<usize>>, x: usize, y: usize, k: usize) -> (r: usize)
    requires
        map.wf(),
        levels_final(map, *s, dist@),
        map.in_bounds(x as int, y as int),
        k > 0,
        exact(map, *s, k as nat, x as int, y as int),
    ensures
        r < 4,
        r == first_dir(map, *s, (k - 1) as nat, x as int, y as int),
{
    let mut d: usize = 0;
    while d < 4
        invariant
            map.wf(),
            levels_final(map, *s, dist@),
            map.in_bounds(x as int, y as int),
            k > 0,
            exact(map, *s, k as nat, x as int, y as int),
            d <= 4,
            forall|e: int| 0 <= e < d ==> !#[trigger] step_hits(map, *s, (k - 1) as nat, x as int, y as int, e),
        decreases 4 - d,
    {
        match neighbor(map, x, y, d) {
            Some((nx, ny)) => {
                if is_enterable(map, s, nx, ny) && dist[ny][nx] != UNSEEN && dist[ny][nx] < k {
                    proof {
                        lemma_hits_mono(map, *s, dist@[ny as int]@[nx as int] as nat, (k - 1) as nat, nx as int, ny as int);
                    }
                    return d;
                }
                proof {
                    if step_hits(map, *s, (k - 1) as nat, x as int, y as int, d as int) {
                        assert(hits(map, *s, (k - 1) as nat, nx as int, ny as int));
                        if dist@[ny as int]@[nx as int] != UNSEEN {
                            let dn = dist@[ny as int]@[nx as int] as nat;
                            lemma_hits_mono(map, *s, (k - 1) as nat, (dn - 1) as nat, nx as int, ny as int);
                        }
                    }
                }
            }
            None => {}
        }
        d = d + 1;
    }
    proof {
        lemma_first_dir_steps(map, *s, k as nat, x as int, y as int);
    }
    0
}

/// The neighbour that `closer_direction` chose, one level closer.
fn step_closer(map: &WorldMap, s: &Search, dist: &Vec<Vec<usize>>, x: usize, y: usize, k: usize) -> (r: (usize, usize))
    requires
        map.wf(),
        levels_final(map, *s, dist@),
        map.in_bounds(x as int, y as int),
        k > 0,
        exact(map, *s, k as nat, x as int, y as int),
    ensures
        map.in_bounds(r.0 as int, r.1 as int),
        ({
            let d = first_dir(map, *s, (k - 1) as nat, x as int, y as int);
            r.0 == x + dir_dx(d) && r.1 == y + dir_dy(d)
        }),
        dist@[r.1 as int]@[r.0 as int] == k - 1,
        exact(map, *s, (k - 1) as nat, r.0 as int, r.1 as int),
{
    let d = closer_direction(map, s, dist, x, y, k);
    proof {
        lemma_first_dir_steps(map, *s, k as nat, x as int, y as int);
    }
    match neighbor(map, x, y, d) {
        Some((nx, ny)) => {
            proof {
                let j = (k - 1) as nat;
                assert(hits(map, *s, j, nx as int, ny as int));
                if j > 0 && hits(map, *s, (j - 1) as nat, nx as int, ny as int) {
                    assert(hits(map, *s, j, x as int, y as int));
                }
                assert(dist@[ny as int]@[nx as int] != UNSEEN);
                lemma_exact_unique(map, *s, dist@[ny as int]@[nx as int] as nat, j, nx as int, ny as int);
            }
            (nx, ny)
        }
        None => {
            proof {
                assert(false);
            }
            (x, y)
        }
    }
}

pub open spec fn position_view(r: Option<(usize, usize)>) -> Option<(int, int)> {
    match r {
        Some((x, y)) => Some((x as int, y as int)),
        None => None,
    }
}

pub open spec fn offset_view(r: Option<(isize, isize)>) -> Option<(int, int)> {
    match r {
        Some((dx, dy)) => Some((dx as int, dy as int)),
        None => None,
    }
}

/// The accepted cell that a breadth-first search from the start meets
/// first, neighbours being visited down, right, up, left.
fn nearest_accepted(map: &WorldMap, s: Search, start_x: usize, start_y: usize) -> (r: Option<(usize, usize)>)
    requires
        map.wf(),
        map.in_bounds(start_x as int, start_y as int),
    ensures
        position_view(r) == nearest(map, s, start_x as int, start_y as int),
{
    let dist = search_levels(map, s);
    let k0 = dist[start_y][start_x];
    if k0 == UNSEEN {
        return None;
    }
    proof {
        lemma_distance(map, s, k0 as nat, start_x as int, start_y as int);
    }
    let mut x = start_x;
    let mut y = start_y;
    let mut k = k0;
    while k > 0
        invariant
            map.wf(),
            levels_final(map, s, dist@),
            map.in_bounds(x as int, y as int),
            k == dist@[y as int]@[x as int],
            exact(map, s, k as nat, x as int, y as int),
            walk(map, s, k0 as nat, start_x as int, start_y as int) == walk(map, s, k as nat, x as int, y as int),
        decreases k,
    {
        let (nx, ny) = step_closer(map, &s, &dist, x, y, k);
        x = nx;
        y = ny;
        k = k - 1;
    }
    Some((x, y))
}

/// The first step of the path that a breadth-first search from the start
/// follows to the accepted cell it meets first.
fn first_move(map: &WorldMap, s: Search, start_x: usize, start_y: usize) -> (r: Option<(isize, isize)>)
    requires
        map.wf(),
        map.in_bounds(start_x as int, start_y as int),
    ensures
        offset_view(r) == first_step(map, s, start_x as int, start_y as int),
{
    let dist = search_levels(map, s);
    let k0 = dist[start_y][start_x];
    if k0 == UNSEEN {
        return None;
    }
    proof {
        lemma_distance(map, s, k0 as nat, start_x as int, start_y as int);
    }
    if k0 == 0 {
        return None;
    }
    let d = closer_direction(map, &s, &dist, start_x, start_y, k0);
    if d == 0 {
        Some((0, 1))
    } else if d == 1 {
        Some((1, 0))
    } else if d == 2 {
        Some((0, -1))
    } else {
        Some((-1, 0))
    }
}

pub open spec fn kind_search(vis: Visibility, target: Cell, revealed: bool) -> Search {
    Search { visibility: vis, goal: Goal::Kind(target), revealed }
}

pub open spec fn position_search(target_x: usize, target_y: usize, revealed: bool) -> Search {
    Search { visibility: Visibility::PerZone, goal: Goal::At(target_x, target_y), revealed }
}

/// Nearest cell of kind `target` under the global-only rule: Mineral and
/// Energy block and are never taken until all resources are revealed.
pub fn find_nearest(start_x: usize, start_y: usize, map: &WorldMap, target: Cell, resources_revealed: bool) -> (r: Option<(usize, usize)>)
    requires
        map.wf(),
        map.in_bounds(start_x as int, start_y as int),
    ensures
        position_view(r) == nearest(map, kind_search(Visibility::GlobalOnly, target, resources_revealed), start_x as int, start_y as int),
{
    let s = Search { visibility: Visibility::GlobalOnly, goal: Goal::Kind(target), revealed: resources_revealed };
    nearest_accepted(map, s, start_x, start_y)
}

/// Nearest cell of kind `target` that may be taken: one revealed globally or
/// lying in an unlocked zone; hidden resources block under the same rule.
pub fn find_nearest_with_access_check(start_x: usize, start_y: usize, map: &WorldMap, target: Cell, resources_revealed: bool) -> (r: Option<(usize, usize)>)
    requires
        map.wf(),
        map.in_bounds(start_x as int, start_y as int),
    ensures
        position_view(r) == nearest(map, kind_search(Visibility::PerZone, target, resources_revealed), start_x as int, start_y as int),
{
    let s = Search { visibility: Visibility::PerZone, goal: Goal::Kind(target), revealed: resources_revealed };
    nearest_accepted(map, s, start_x, start_y)
}

/// The unit offset of the first step of a shortest path to the target, the
/// first in neighbour order (down, right, up, left); `None` when the start is
/// the target or no path exists.
pub fn next_step_towards(start_x: usize, start_y: usize, target_x: usize, target_y: usize, map: &WorldMap, resources_revealed: bool) -> (r: Option<(isize, isize)>)
    requires
        map.wf(),
        map.in_bounds(start_x as int, start_y as int),
    ensures
        offset_view(r) == first_step(map, position_search(target_x, target_y, resources_revealed), start_x as int, start_y as int),
{
    let s = Search { visibility: Visibility::PerZone, goal: Goal::At(target_x, target_y), revealed: resources_revealed };
    first_move(map, s, start_x, start_y)
}


/// Every step that `next_step_towards` returns is a unit step onto a cell of
/// the grid that is neither wall nor obstacle, provided the target cell is
/// neither (a target wall in an unlocked zone may itself be stepped onto).
pub proof fn lemma_next_step_contained(
    map: &WorldMap,
    start_x: usize,
    start_y: usize,
    target_x: usize,
    target_y: usize,
    resources_revealed: bool,
    r: Option<(isize, isize)>,
)
    requires
        map.wf(),
        map.in_bounds(start_x as int, start_y as int),
        offset_view(r) == first_step(map, position_search(target_x, target_y, resources_revealed), start_x as int, start_y as int),
        map.in_bounds(target_x as int, target_y as int) ==> !map.cell(target_x as int, target_y as int).is_terrain_block(),
    ensures
        r matches Some((dx, dy)) ==> {
            &&& map.in_bounds(start_x + dx, start_y + dy)
            &&& !map.cell(start_x + dx, start_y + dy).is_terrain_block()
            &&& (dx == 0 && (dy == 1 || dy == -1)) || (dy == 0 && (dx == 1 || dx == -1))
        },
{
    let s = position_search(target_x, target_y, resources_revealed);
    let (x, y) = (start_x as int, start_y as int);
    if r is Some {
        let m = choose|m: nat| hits(map, s, m, x, y);
        lemma_exact_exists(map, s, m, x, y);
        lemma_first_dir_steps(map, s, distance(map, s, x, y), x, y);
    }
}

/// Two maps agree on everything a search reads: size, cells, and each
/// zone's bounds and lock.
pub open spec fn same_terrain(m1: &WorldMap, m2: &WorldMap) -> bool {
    &&& m1.width == m2.width
    &&& m1.height == m2.height
    &&& m1.grid == m2.grid
    &&& m1.zones@.len() == m2.zones@.len()
    &&& forall|i: int|
        0 <= i < m1.zones@.len() ==> {
            &&& (#[trigger] m1.zones@[i]).min_x == m2.zones@[i].min_x
            &&& m1.zones@[i].max_x == m2.zones@[i].max_x
            &&& m1.zones@[i].min_y == m2.zones@[i].min_y
            &&& m1.zones@[i].max_y == m2.zones@[i].max_y
            &&& m1.zones@[i].is_unlocked == m2.zones@[i].is_unlocked
        }
}

proof fn lemma_same_first_zone(m1: &WorldMap, m2: &WorldMap, x: int, y: int, i: int)
    requires
        same_terrain(m1, m2),
    ensures
        first_zone_from(m1.zones@, x, y, i) == first_zone_from(m2.zones@, x, y, i),
    decreases m1.zones@.len() - i,
{
    if 0 <= i < m1.zones@.len() {
        assert(m1.zones@[i].min_x == m2.zones@[i].min_x);
        lemma_same_first_zone(m1, m2, x, y, i + 1);
    }
}

proof fn lemma_same_access(m1: &WorldMap, m2: &WorldMap)
    requires
        same_terrain(m1, m2),
    ensures
        forall|x: int, y: int| #[trigger] m1.accessible(x, y) == m2.accessible(x, y),
{
    assert forall|x: int, y: int| #[trigger] m1.accessible(x, y) == m2.accessible(x, y) by {
        lemma_same_first_zone(m1, m2, x, y, 0);
        if let Some(i) = zone_index_at(m1.zones@, x, y) {
            lemma_first_zone_from_in(m1.zones@, x, y, 0);
            assert(m1.zones@[i].is_unlocked == m2.zones@[i].is_unlocked);
        }
    }
}

proof fn lemma_first_zone_from_in(zones: Seq<Zone>, x: int, y: int, i: int)
    ensures
        first_zone_from(zones, x, y, i) matches Some(j) ==> 0 <= j < zones.len(),
    decreases zones.len() - i,
{
    if 0 <= i < zones.len() && !zones[i].contains(x, y) {
        lemma_first_zone_from_in(zones, x, y, i + 1);
    }
}

proof fn lemma_same_hits(m1: &WorldMap, m2: &WorldMap, s: Search, k: nat, x: int, y: int)
    requires
        same_terrain(m1, m2),
        forall|a: int, b: int| #[trigger] m1.accessible(a, b) == m2.accessible(a, b),
    ensures
        hits(m1, s, k, x, y) == hits(m2, s, k, x, y),
    decreases k,
{
    if k > 0 {
        let j = (k - 1) as nat;
        lemma_same_hits(m1, m2, s, j, x, y);
        lemma_same_hits(m1, m2, s, j, x, y + 1);
        lemma_same_hits(m1, m2, s, j, x + 1, y);
        lemma_same_hits(m1, m2, s, j, x, y - 1);
        lemma_same_hits(m1, m2, s, j, x - 1, y);
    }
}

/// A search gives the same first step on any two maps that agree on size,
/// cells and zone bounds and locks.
pub proof fn lemma_same_terrain_first_step(m1: &WorldMap, m2: &WorldMap, s: Search, x: int, y: int)
    requires
        same_terrain(m1, m2),
    ensures
        first_step(m1, s, x, y) == first_step(m2, s, x, y),
{
    lemma_same_access(m1, m2);
    assert forall|k: nat, a: int, b: int| #[trigger] hits(m1, s, k, a, b) == hits(m2, s, k, a, b) by {
        lemma_same_hits(m1, m2, s, k, a, b);
    }
    assert(reachable(m1, s, x, y) == reachable(m2, s, x, y)) by {
        if reachable(m1, s, x, y) {
            let k = choose|k: nat| hits(m1, s, k, x, y);
            assert(hits(m2, s, k, x, y));
        }
        if reachable(m2, s, x, y) {
            let k = choose|k: nat| hits(m2, s, k, x, y);
            assert(hits(m1, s, k, x, y));
        }
    }
    if reachable(m1, s, x, y) {
        let k = choose|k: nat| hits(m1, s, k, x, y);
        lemma_exact_exists(m1, s, k, x, y);
        let d = distance(m1, s, x, y);
        if d > 0 {
            assert(hits(m2, s, (d - 1) as nat, x, y) == hits(m1, s, (d - 1) as nat, x, y));
        }
        assert(exact(m2, s, d, x, y));
        lemma_distance(m2, s, d, x, y);
    }
}

/// `next_step_towards` returns the same offset on the same start, target and
/// reveal flag whenever the two maps agree on size, cells and zone bounds
/// and locks; in particular, two calls on one map agree.
pub proof fn lemma_next_step_deterministic(
    map1: &WorldMap,
    map2: &WorldMap,
    start_x: usize,
    start_y: usize,
    target_x: usize,
    target_y: usize,
    resources_revealed: bool,
    r1: Option<(isize, isize)>,
    r2: Option<(isize, isize)>,
)
    requires
        same_terrain(map1, map2),
        offset_view(r1) == first_step(map1, position_search(target_x, target_y, resources_revealed), start_x as int, start_y as int),
        offset_view(r2) == first_step(map2, position_search(target_x, target_y, resources_revealed), start_x as int, start_y as int),
    ensures
        r1 == r2,
{
    lemma_same_terrain_first_step(map1, map2, position_search(target_x, target_y, resources_revealed), start_x as int, start_y as int);
}


pub open spec fn origin_search(x: usize, y: usize, revealed: bool) -> Search {
    Search { visibility: Visibility::PerZone, goal: Goal::Origin(x, y), revealed }
}

pub open spec fn manhattan(ax: int, ay: int, bx: int, by: int) -> int {
    (if ax >= bx { ax - bx } else { bx - ax }) + (if ay >= by { ay - by } else { by - ay })
}

/// `(ax, ay)` comes before `(bx, by)` in row-major order.
pub open spec fn scan_before(ax: int, ay: int, bx: int, by: int) -> bool {
    ay < by || (ay == by && ax < bx)
}

/// An empty cell that a robot at `(sx, sy)` can walk to, every cell after
/// its own being unblocked.
pub open spec fn explorable(map: &WorldMap, revealed: bool, sx: usize, sy: usize, x: int, y: int) -> bool {
    &&& map.in_bounds(x, y)
    &&& map.cell(x, y) == Cell::Empty
    &&& reachable(map, origin_search(sx, sy, revealed), x, y)
}

/// `(x, y)` is explorable, and no explorable cell lies farther from the
/// start, nor as far and earlier in row-major order.
pub open spec fn farthest_explorable(map: &WorldMap, revealed: bool, sx: usize, sy: usize, x: int, y: int) -> bool {
    &&& explorable(map, revealed, sx, sy, x, y)
    &&& forall|a: int, b: int|
        #[trigger] explorable(map, revealed, sx, sy, a, b) ==> manhattan(a, b, sx as int, sy as int) < manhattan(
            x,
            y,
            sx as int,
            sy as int,
        ) || (manhattan(a, b, sx as int, sy as int) == manhattan(x, y, sx as int, sy as int)
            && !scan_before(a, b, x, y))
}

fn distance_between(a: usize, b: usize) -> (r: usize)
    ensures
        r == if a >= b { a - b } else { b - a },
{
    if a >= b {
        a - b
    } else {
        b - a
    }
}

/// The exploration target of a robot at the start: the reachable empty cell
/// farthest from it by Manhattan distance, the first in row-major order
/// among equals; `None` when no empty cell is reachable.
pub fn find_exploration_target(start_x: usize, start_y: usize, map: &WorldMap, resources_revealed: bool) -> (r: Option<(usize, usize)>)
    requires
        map.wf(),
        map.in_bounds(start_x as int, start_y as int),
    ensures
        r matches Some((x, y)) ==> farthest_explorable(map, resources_revealed, start_x, start_y, x as int, y as int),
        r is None ==> forall|a: int, b: int| !#[trigger] explorable(map, resources_revealed, start_x, start_y, a, b),
{
    let s = Search { visibility: Visibility::PerZone, goal: Goal::Origin(start_x, start_y), revealed: resources_revealed };
    let dist = search_levels(map, s);
    proof {
        assert(map.width + map.height <= map.width * map.height + 1) by (nonlinear_arith)
            requires
                map.width >= 1,
                map.height >= 1,
        ;
    }
    let mut best: Option<(usize, usize)> = None;
    let mut best_d: usize = 0;
    let mut y: usize = 0;
    while y < map.height
        invariant
            map.wf(),
            levels_final(map, s, dist@),
            s == origin_search(start_x, start_y, resources_revealed),
            map.in_bounds(start_x as int, start_y as int),
            map.width + map.height <= u32::MAX,
            y <= map.height,
            best matches Some((bx, by)) ==> {
                &&& explorable(map, resources_revealed, start_x, start_y, bx as int, by as int)
                &&& by < y
                &&& best_d == manhattan(bx as int, by as int, start_x as int, start_y as int)
                &&& forall|a: int, b: int|
                    #[trigger] explorable(map, resources_revealed, start_x, start_y, a, b) && b < y ==> manhattan(
                        a,
                        b,
                        start_x as int,
                        start_y as int,
                    ) < best_d || (manhattan(a, b, start_x as int, start_y as int) == best_d && !scan_before(
                        a,
                        b,
                        bx as int,
                        by as int,
                    ))
            },
            best is None ==> forall|a: int, b: int|
                #[trigger] explorable(map, resources_revealed, start_x, start_y, a, b) ==> b >= y,
        decreases map.height - y,
    {
        let mut x: usize = 0;
        while x < map.width
            invariant
                map.wf(),
                levels_final(map, s, dist@),
                s == origin_search(start_x, start_y, resources_revealed),
                map.in_bounds(start_x as int, start_y as int),
                map.width + map.height <= u32::MAX,
                y < map.height,
                x <= map.width,
                best matches Some((bx, by)) ==> {
                    &&& explorable(map, resources_revealed, start_x, start_y, bx as int, by as int)
                    &&& scan_before(bx as int, by as int, x as int, y as int)
                    &&& best_d == manhattan(bx as int, by as int, start_x as int, start_y as int)
                    &&& forall|a: int, b: int|
                        #[trigger] explorable(map, resources_revealed, start_x, start_y, a, b) && scan_before(
                            a,
                            b,
                            x as int,
                            y as int,
                        ) ==> manhattan(a, b, start_x as int, start_y as int) < best_d || (manhattan(
                            a,
                            b,
                            start_x as int,
                            start_y as int,
                        ) == best_d && !scan_before(a, b, bx as int, by as int))
                },
                best is None ==> forall|a: int, b: int|
                    #[trigger] explorable(map, resources_revealed, start_x, start_y, a, b) ==> !scan_before(
                        a,
                        b,
                        x as int,
                        y as int,
                    ),
            decreases map.width - x,
        {
            if map.cell_at(x, y) == Cell::Empty && dist[y][x] != UNSEEN {
                let d = distance_between(x, start_x) + distance_between(y, start_y);
                proof {
                    let k = dist@[y as int]@[x as int] as nat;
                    assert(hits(map, s, k, x as int, y as int));
                    assert(explorable(map, resources_revealed, start_x, start_y, x as int, y as int));
                }
                if best.is_none() || d > best_d {
                    best = Some((x, y));
                    best_d = d;
                }
            } else {
                proof {
                    if explorable(map, resources_revealed, start_x, start_y, x as int, y as int) {
                        assert(dist@[y as int]@[x as int] != UNSEEN);
                    }
                }
            }
            x = x + 1;
        }
        y = y + 1;
    }
    best
}

} // verus!

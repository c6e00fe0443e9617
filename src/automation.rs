use vstd::prelude::*;
use crate::cell::Cell;
use crate::game_state::GameState;
use crate::pathfinding::{
    find_nearest,
    find_nearest_with_access_check,
    first_step,
    kind_search,
    nearest,
    next_step_towards,
    position_search,
    Visibility,
};
use crate::robot::{collect_outcome, unload_outcome, Robot, RobotType};
use crate::station::Station;
use crate::world::{lemma_zones_kept_trans, zones_kept, WorldMap};

verus! {

/// Where a robot heads this tick: the station when it carries science or is
/// full; else, for an explorator, the nearest science sample (hidden
/// resources blocking until revealed everywhere), and for a collector the
/// nearest mineral that may be taken, or failing that the nearest energy.
pub open spec fn chosen_target(robot: &Robot, map: &WorldMap, station: &Station, revealed: bool) -> Option<(int, int)> {
    let (x, y) = (robot.x as int, robot.y as int);
    if robot.inventory.science > 0 || robot.inventory.total() >= robot.inventory_capacity {
        Some((station.x as int, station.y as int))
    } else {
        match robot.robot_type {
            RobotType::Explorator => nearest(map, kind_search(Visibility::GlobalOnly, Cell::Science, revealed), x, y),
            RobotType::Collector => match nearest(map, kind_search(Visibility::PerZone, Cell::Mineral, revealed), x, y) {
                Some(p) => Some(p),
                None => nearest(map, kind_search(Visibility::PerZone, Cell::Energy, revealed), x, y),
            },
        }
    }
}

/// The robot after one automated tick: it takes the first step toward its
/// chosen target when that step may be entered.
pub open spec fn automated(
    robot: &Robot,
    map: &WorldMap,
    station: &Station,
    revealed: bool,
    others: Seq<(usize, usize)>,
) -> Robot {
    let (x, y) = (robot.x as int, robot.y as int);
    let step = match chosen_target(robot, map, station, revealed) {
        Some(t) => first_step(map, position_search(t.0 as usize, t.1 as usize, revealed), x, y),
        None => None,
    };
    match step {
        Some(d) => robot.after_move(map, revealed, others, station, d.0, d.1),
        None => *robot,
    }
}

/// Chooses the robot's target, computes the first step toward it and
/// attempts that step.
pub fn automate_robot(
    robot: &mut Robot,
    map: &WorldMap,
    station: &Station,
    resources_revealed: bool,
    other_robots: &[(usize, usize)],
)
    requires
        map.wf(),
        map.in_bounds(old(robot).x as int, old(robot).y as int),
        old(robot).wf(),
    ensures
        *final(robot) == automated(old(robot), map, station, resources_revealed, other_robots@),
{
    let (x, y) = (robot.x, robot.y);
    let target = if robot.inventory.contains(crate::inventory::ResourceType::Science)
        || robot.inventory_count() >= robot.inventory_capacity {
        Some((station.x, station.y))
    } else {
        match robot.robot_type {
            RobotType::Explorator => find_nearest(x, y, map, Cell::Science, resources_revealed),
            RobotType::Collector => match find_nearest_with_access_check(x, y, map, Cell::Mineral, resources_revealed) {
                Some(p) => Some(p),
                None => find_nearest_with_access_check(x, y, map, Cell::Energy, resources_revealed),
            },
        }
    };
    if let Some((tx, ty)) = target {
        if let Some((dx, dy)) = next_step_towards(x, y, tx, ty, map, resources_revealed) {
            robot.try_move(dx, dy, map, resources_revealed, other_robots, station);
        }
    }
}


/// The positions of `snapshot` but the one at index `i`, in order.
fn others_than(snapshot: &Vec<(usize, usize)>, i: usize) -> (r: Vec<(usize, usize)>)
    requires
        i < snapshot@.len(),
    ensures
        r@ == snapshot@.take(i as int) + snapshot@.skip(i + 1),
{
    let mut r: Vec<(usize, usize)> = Vec::new();
    let mut j: usize = 0;
    while j < snapshot.len()
        invariant
            j <= snapshot@.len(),
            r@ == if j <= i {
                snapshot@.take(j as int)
            } else {
                snapshot@.take(i as int) + snapshot@.subrange(i + 1, j as int)
            },
        decreases snapshot@.len() - j,
    {
        if j != i {
            r.push(snapshot[j]);
        }
        proof {
            if j < i {
                assert(snapshot@.take(j + 1) =~= snapshot@.take(j as int).push(snapshot@[j as int]));
            } else if j == i {
                assert(snapshot@.take(i as int) + snapshot@.subrange(i + 1, j + 1) =~= snapshot@.take(j as int));
            } else {
                assert(snapshot@.subrange(i + 1, j + 1) =~= snapshot@.subrange(i + 1, j as int).push(snapshot@[j as int]));
            }
        }
        j = j + 1;
    }
    proof {
        assert(snapshot@.subrange(i + 1, snapshot@.len() as int) =~= snapshot@.skip(i + 1));
    }
    r
}

/// Where each robot stands.
pub open spec fn positions(robots: Seq<Robot>) -> Seq<(usize, usize)> {
    robots.map_values(|r: Robot| (r.x, r.y))
}

/// `s` without its element at index `i`.
pub open spec fn all_but(s: Seq<(usize, usize)>, i: int) -> Seq<(usize, usize)> {
    s.take(i) + s.skip(i + 1)
}

/// `b` is `a` with robot `i` replaced by `r`, all else equal.
pub open spec fn robot_replaced(a: GameState, b: GameState, i: int, r: Robot) -> bool {
    &&& b.robots@ == a.robots@.update(i, r)
    &&& b.map == a.map
    &&& b.station == a.station
    &&& b.last_collect_message == a.last_collect_message
    &&& b.resources_revealed == a.resources_revealed
    &&& b.robot_speed_ms == a.robot_speed_ms
}

/// Robot `i` takes its automated step (when automation is on), judged
/// against `others`.
#[verifier::opaque]
pub open spec fn move_stage(a: GameState, b: GameState, i: int, others: Seq<(usize, usize)>, enabled: bool) -> bool {
    robot_replaced(
        a,
        b,
        i,
        if enabled {
            automated(&a.robots@[i], &a.map, &a.station, a.resources_revealed, others)
        } else {
            a.robots@[i]
        },
    )
}

/// Robot `i` unloads when it stands on the station and the deposit fits the
/// station's counts and the turn counter.
#[verifier::opaque]
pub open spec fn unload_stage(a: GameState, b: GameState, i: int, deposited: bool) -> bool {
    let r = a.robots@[i];
    if r.at_station(&a.station) && a.station.inventory.can_take(r.inventory) && a.map.current_turn < u32::MAX {
        &&& unload_outcome(r, a.station, a.map, b.robots@[i], b.station, b.map, deposited)
        &&& b.robots@ == a.robots@.update(i, b.robots@[i])
        &&& b.last_collect_message == a.last_collect_message
        &&& b.resources_revealed == a.resources_revealed
        &&& b.robot_speed_ms == a.robot_speed_ms
    } else {
        b == a && !deposited
    }
}

/// The tick length after a science deposit.
pub open spec fn sped_up(ms: u64) -> u64 {
    if ms > 30 {
        if ms >= 50 {
            (ms - 50) as u64
        } else {
            0
        }
    } else {
        ms
    }
}

/// After a science deposit the game speeds up; nothing else changes.
#[verifier::opaque]
pub open spec fn deposit_stage(a: GameState, b: GameState, deposited: bool) -> bool {
    &&& b.robots == a.robots
    &&& b.map == a.map
    &&& b.station == a.station
    &&& b.last_collect_message == a.last_collect_message
    &&& b.resources_revealed == a.resources_revealed
    &&& b.robot_speed_ms == if deposited {
        sped_up(a.robot_speed_ms)
    } else {
        a.robot_speed_ms
    }
}

/// Robot `i` harvests its cell; what that returns becomes the last message.
#[verifier::opaque]
pub open spec fn collect_stage(a: GameState, b: GameState, i: int) -> bool {
    &&& collect_outcome(a.robots@[i], a.map, a.resources_revealed, b.robots@[i], b.map, b.last_collect_message)
    &&& b.robots@ == a.robots@.update(i, b.robots@[i])
    &&& b.station == a.station
    &&& b.resources_revealed == a.resources_revealed
    &&& b.robot_speed_ms == a.robot_speed_ms
}

/// A record of one tick from `a` to `b`: robot `k`'s turn runs from
/// `start[k]` through `moved[k]`, `unloaded[k]` and `settled[k]` to
/// `start[k + 1]`; every robot is judged against the positions that all
/// robots held when the tick began.
pub open spec fn tick_trace(
    a: GameState,
    b: GameState,
    enabled: bool,
    start: Seq<GameState>,
    moved: Seq<GameState>,
    unloaded: Seq<GameState>,
    settled: Seq<GameState>,
    deposits: Seq<bool>,
) -> bool {
    let n = a.robots@.len() as int;
    &&& start.len() == n + 1
    &&& moved.len() == n
    &&& unloaded.len() == n
    &&& settled.len() == n
    &&& deposits.len() == n
    &&& start[0] == a
    &&& start[n] == b
    &&& forall|k: int|
        0 <= k < n ==> {
            &&& move_stage(#[trigger] start[k], moved[k], k, all_but(positions(a.robots@), k), enabled)
            &&& unload_stage(moved[k], unloaded[k], k, deposits[k])
            &&& deposit_stage(unloaded[k], settled[k], deposits[k])
            &&& collect_stage(settled[k], start[k + 1], k)
        }
}

/// What every tick keeps: the map stays well formed with the same size and
/// zones (unlocked zones staying unlocked), robots keep their number, roles
/// and capacities and stay on the map, the station stays put and only gains.
pub open spec fn tick_keeps(a: &GameState, b: &GameState) -> bool {
    &&& b.wf()
    &&& b.robots@.len() == a.robots@.len()
    &&& forall|i: int|
        0 <= i < a.robots@.len() ==> (#[trigger] b.robots@[i]).robot_type == a.robots@[i].robot_type
            && b.robots@[i].inventory_capacity == a.robots@[i].inventory_capacity
    &&& b.map.width == a.map.width
    &&& b.map.height == a.map.height
    &&& zones_kept(a.map.zones@, b.map.zones@)
    &&& b.station.x == a.station.x
    &&& b.station.y == a.station.y
    &&& b.station.inventory.total() >= a.station.inventory.total()
    &&& b.resources_revealed == a.resources_revealed
    &&& b.robot_speed_ms <= a.robot_speed_ms
}

proof fn lemma_tick_keeps_trans(a: &GameState, b: &GameState, c: &GameState)
    requires
        tick_keeps(a, b),
        tick_keeps(b, c),
    ensures
        tick_keeps(a, c),
{
    lemma_zones_kept_trans(a.map.zones@, b.map.zones@, c.map.zones@);
    assert forall|i: int| 0 <= i < a.robots@.len() implies (#[trigger] c.robots@[i]).robot_type == a.robots@[i].robot_type
        && c.robots@[i].inventory_capacity == a.robots@[i].inventory_capacity by {
        assert(b.robots@[i].robot_type == a.robots@[i].robot_type);
    }
}

/// Robot `i`'s turn: step, unload, deposit effects, harvest. Returns the
/// states after the first three stages and whether science was deposited.
fn take_turn(
    state: &mut GameState,
    i: usize,
    others: &Vec<(usize, usize)>,
    automation_enabled: bool,
) -> (stages: Ghost<(GameState, GameState, GameState, bool)>)
    requires
        old(state).wf(),
        i < old(state).robots@.len(),
    ensures
        ({
            let (s1, s2, s3, deposited) = stages@;
            &&& move_stage(*old(state), s1, i as int, others@, automation_enabled)
            &&& unload_stage(s1, s2, i as int, deposited)
            &&& deposit_stage(s2, s3, deposited)
            &&& collect_stage(s3, *final(state), i as int)
        }),
        tick_keeps(old(state), final(state)),
{
    proof {
        reveal(move_stage);
        reveal(unload_stage);
        reveal(deposit_stage);
        reveal(collect_stage);
    }
    let ghost s0 = *state;
    if automation_enabled {
        automate_robot(&mut state.robots[i], &state.map, &state.station, state.resources_revealed, others.as_slice());
    }
    proof {
        assert(state.robots@ =~= s0.robots@.update(i as int, state.robots@[i as int]));
    }
    let ghost s1 = *state;
    let mut deposited = false;
    if state.robots[i].x == state.station.x && state.robots[i].y == state.station.y
        && state.station.inventory.fits(&state.robots[i].inventory) && state.map.current_turn < u32::MAX {
        deposited = state.robots[i].unload_resources(&mut state.station, &mut state.map);
        proof {
            assert(state.robots@ =~= s1.robots@.update(i as int, state.robots@[i as int]));
        }
    }
    let ghost s2 = *state;
    if deposited && state.robot_speed_ms > 30 {
        state.robot_speed_ms = state.robot_speed_ms.saturating_sub(50);
    }
    let ghost s3 = *state;
    state.last_collect_message = state.robots[i].collect_resource(&mut state.map, state.resources_revealed);
    proof {
        assert(state.robots@ =~= s3.robots@.update(i as int, state.robots@[i as int]));
        lemma_zones_kept_trans(s0.map.zones@, s2.map.zones@, state.map.zones@);
    }
    Ghost((s1, s2, s3, deposited))
}

/// One tick. Robot positions are taken once at the start; then each robot
/// in order, when automation is on, takes its automated step (judged against
/// the others' starting positions); on the station it unloads, which unlocks
/// the zones where its carried science was collected (a deposit that would
/// overflow a station count or the turn counter is held back), and a science
/// deposit speeds the game up by 50 ms; last it harvests its cell.
pub fn automate_all_robots(state: &mut GameState, automation_enabled: bool)
    requires
        old(state).wf(),
    ensures
        tick_keeps(old(state), final(state)),
        exists|
            start: Seq<GameState>,
            moved: Seq<GameState>,
            unloaded: Seq<GameState>,
            settled: Seq<GameState>,
            deposits: Seq<bool>,
        |
            #[trigger] tick_trace(*old(state), *final(state), automation_enabled, start, moved, unloaded, settled, deposits),
{
    let n = state.robots.len();
    let mut snapshot: Vec<(usize, usize)> = Vec::new();
    let mut j: usize = 0;
    while j < n
        invariant
            n == state.robots@.len(),
            j <= n,
            snapshot@ == positions(state.robots@.take(j as int)),
        decreases n - j,
    {
        snapshot.push((state.robots[j].x, state.robots[j].y));
        proof {
            assert(positions(state.robots@.take(j + 1)) =~= positions(state.robots@.take(j as int)).push(
                (state.robots@[j as int].x, state.robots@[j as int].y),
            ));
        }
        j = j + 1;
    }
    proof {
        assert(state.robots@.take(n as int) =~= state.robots@);
    }
    let ghost mut start: Seq<GameState> = seq![*state];
    let ghost mut moved: Seq<GameState> = Seq::empty();
    let ghost mut unloaded: Seq<GameState> = Seq::empty();
    let ghost mut settled: Seq<GameState> = Seq::empty();
    let ghost mut deposits: Seq<bool> = Seq::empty();
    let mut i: usize = 0;
    while i < n
        invariant
            n == state.robots@.len(),
            n == old(state).robots@.len(),
            i <= n,
            snapshot@ == positions(old(state).robots@),
            old(state).wf(),
            tick_keeps(old(state), state),
            start.len() == i + 1,
            moved.len() == i,
            unloaded.len() == i,
            settled.len() == i,
            deposits.len() == i,
            start[0] == *old(state),
            start[i as int] == *state,
            forall|k: int|
                0 <= k < i ==> {
                    &&& move_stage(#[trigger] start[k], moved[k], k, all_but(positions(old(state).robots@), k), automation_enabled)
                    &&& unload_stage(moved[k], unloaded[k], k, deposits[k])
                    &&& deposit_stage(unloaded[k], settled[k], deposits[k])
                    &&& collect_stage(settled[k], start[k + 1], k)
                },
        decreases n - i,
    {
        let others = others_than(&snapshot, i);
        let ghost before = *state;
        let stages = take_turn(state, i, &others, automation_enabled);
        proof {
            let (s1, s2, s3, deposited) = stages@;
            let others_i = all_but(positions(old(state).robots@), i as int);
            assert(others@ == others_i);
            lemma_tick_keeps_trans(old(state), &before, state);
            let prev = (start, moved, unloaded, settled, deposits);
            start = start.push(*state);
            moved = moved.push(s1);
            unloaded = unloaded.push(s2);
            settled = settled.push(s3);
            deposits = deposits.push(deposited);
            assert forall|k: int| 0 <= k < i + 1 implies {
                &&& move_stage(#[trigger] start[k], moved[k], k, all_but(positions(old(state).robots@), k), automation_enabled)
                &&& unload_stage(moved[k], unloaded[k], k, deposits[k])
                &&& deposit_stage(unloaded[k], settled[k], deposits[k])
                &&& collect_stage(settled[k], start[k + 1], k)
            } by {
                if k < i {
                    assert(start[k] == prev.0[k]);
                    assert(start[k + 1] == prev.0[k + 1]);
                    assert(move_stage(prev.0[k], prev.1[k], k, all_but(positions(old(state).robots@), k), automation_enabled));
                } else {
                    assert(start[k] == before);
                }
            }
        }
        i = i + 1;
    }
    proof {
        assert(tick_trace(*old(state), *state, automation_enabled, start, moved, unloaded, settled, deposits));
    }
}


/// What a key press asks of the game.
#[derive(Debug, Clone, Copy, PartialEq, Eq, Structural)]
pub enum Intent {
    /// Step the first robot by `(dx, dy)`.
    Move(isize, isize),
    ToggleAutomation,
    Quit,
}

/// Applies one intent: a move steps the first robot (judged against the
/// other robots' positions), a toggle flips automation. Returns whether the
/// game should stop.
pub fn handle_intent(state: &mut GameState, intent: Intent, automation_enabled: &mut bool) -> (quit: bool)
    requires
        old(state).wf(),
    ensures
        quit == (intent == Intent::Quit),
        *final(automation_enabled) == if intent == Intent::ToggleAutomation {
            !*old(automation_enabled)
        } else {
            *old(automation_enabled)
        },
        final(state).robots@.len() == old(state).robots@.len(),
        forall|i: int|
            0 < i < old(state).robots@.len() ==> #[trigger] final(state).robots@[i] == old(state).robots@[i],
        (match intent {
            Intent::Move(dx, dy) => old(state).robots@.len() > 0 ==> final(state).robots@[0]
                == old(state).robots@[0].after_move(
                &old(state).map,
                old(state).resources_revealed,
                old(state).robots@.skip(1).map_values(|r: Robot| (r.x, r.y)),
                &old(state).station,
                dx as int,
                dy as int,
            ),
            _ => final(state).robots == old(state).robots,
        }),
        final(state).map == old(state).map,
        final(state).station == old(state).station,
        final(state).resources_revealed == old(state).resources_revealed,
        final(state).robot_speed_ms == old(state).robot_speed_ms,
        final(state).last_collect_message == old(state).last_collect_message,
        final(state).wf(),
{
    match intent {
        Intent::Move(dx, dy) => {
            if state.robots.len() > 0 {
                let mut others: Vec<(usize, usize)> = Vec::new();
                let mut j: usize = 1;
                while j < state.robots.len()
                    invariant
                        1 <= j <= state.robots@.len(),
                        others@ == state.robots@.subrange(1, j as int).map_values(|r: Robot| (r.x, r.y)),
                    decreases state.robots@.len() - j,
                {
                    others.push((state.robots[j].x, state.robots[j].y));
                    proof {
                        assert(state.robots@.subrange(1, j + 1).map_values(|r: Robot| (r.x, r.y))
                            =~= state.robots@.subrange(1, j as int).map_values(|r: Robot| (r.x, r.y)).push(
                            (state.robots@[j as int].x, state.robots@[j as int].y),
                        ));
                    }
                    j = j + 1;
                }
                proof {
                    assert(state.robots@.subrange(1, state.robots@.len() as int) =~= state.robots@.skip(1));
                }
                state.robots[0].try_move(dx, dy, &state.map, state.resources_revealed, others.as_slice(), &state.station);
            }
            false
        }
        Intent::ToggleAutomation => {
            *automation_enabled = !*automation_enabled;
            false
        }
        Intent::Quit => true,
    }
}

} // verus!

//! The per-robot state machine and the tick that advances every robot once.

use vstd::prelude::*;
use crate::world::{World, Robot, Task, RobotState, is_map_fully_explored};
use crate::movement::step_toward;
use crate::exploration::{explore_step, explore_map};
use crate::collection::{collect_step, collect_resources};

verus! {

/// How one update moves robot `r0` on `m0` to `r1` on `m1`, and whether it
/// raises the recall signal (`signal`). The grid, obstacles and base never change.
///
/// - `Exploring`: on a fully revealed grid the robot turns to `Returning`;
///   otherwise it takes an exploration step.
/// - `Returning`: one unchecked step toward the base. A collector standing on
///   the base afterwards switches to `Collecting`. An explorer stays
///   `Returning`, and raises the signal when this step brought it onto the base.
/// - `Collecting`: a collection step.
pub open spec fn robot_step(r0: Robot, m0: World, r1: Robot, m1: World, signal: bool) -> bool {
    &&& m0.same_layout(&m1)
    &&& match r0.state {
        RobotState::Exploring => {
            &&& !signal
            &&& if m0.fully_explored() {
                r1 == (Robot { state: RobotState::Returning, ..r0 }) && m0.same_contents(&m1)
            } else {
                explore_step(r0, m0, r1, m1)
            }
        },
        RobotState::Returning => {
            let at_base = r1.x == m0.base.0 && r1.y == m0.base.1;
            let was_at_base = r0.x == m0.base.0 && r0.y == m0.base.1;
            &&& r1.x == step_toward(r0.x as int, m0.base.0 as int)
            &&& r1.y == step_toward(r0.y as int, m0.base.1 as int)
            &&& r1.energy == r0.energy
            &&& r1.minerals == r0.minerals
            &&& r1.task == r0.task
            &&& r1.state == (if at_base && r0.task != Task::Explore {
                RobotState::Collecting
            } else {
                RobotState::Returning
            })
            &&& m0.same_contents(&m1)
            &&& signal == (r0.task == Task::Explore && !was_at_base && at_base)
        },
        RobotState::Collecting => !signal && collect_step(r0, m0, r1, m1),
    }
}

/// What the recall signal does to a robot: collectors are forced into
/// `Collecting`, explorers are left alone.
pub open spec fn recalled(r: Robot) -> Robot {
    if r.task != Task::Explore {
        Robot { state: RobotState::Collecting, ..r }
    } else {
        r
    }
}

/// A robot that can take one more update without its counters overflowing.
pub open spec fn ready(r: Robot, map: &World) -> bool {
    &&& r.inside(map)
    &&& r.energy < usize::MAX
    &&& r.minerals < usize::MAX
}

/// Advances one robot by one step of its state machine; returns whether it
/// raised the recall signal (an explorer that has just come home).
pub fn update_robot(robot: &mut Robot, map: &mut World) -> (signal: bool)
    requires
        old(map).wf(),
        ready(*old(robot), old(map)),
    ensures
        old(map).same_layout(final(map)),
        final(robot).inside(final(map)),
        robot_step(*old(robot), *old(map), *final(robot), *final(map), signal),
{
    match robot.state {
        RobotState::Exploring => {
            if is_map_fully_explored(map) {
                robot.state = RobotState::Returning;
            } else {
                explore_map(robot, map);
            }
            false
        },
        RobotState::Returning => {
            let was_at_base = robot.x == map.base.0 && robot.y == map.base.1;
            robot.move_towards(map.base);
            let at_base = robot.x == map.base.0 && robot.y == map.base.1;
            let explorer = robot.task == Task::Explore;
            if at_base && !explorer {
                robot.state = RobotState::Collecting;
            }
            explorer && !was_at_base && at_base
        },
        RobotState::Collecting => {
            collect_resources(robot, map);
            false
        },
    }
}

/// Forces every robot whose task is not `Explore` into `Collecting`.
pub fn recall_collectors(robots: &mut Vec<Robot>)
    ensures
        final(robots)@.len() == old(robots)@.len(),
        forall|i: int| 0 <= i < old(robots)@.len() ==> #[trigger] final(robots)@[i] == recalled(old(robots)@[i]),
{
    let mut i: usize = 0;
    while i < robots.len()
        invariant
            robots@.len() == old(robots)@.len(),
            i <= robots@.len(),
            forall|j: int| 0 <= j < i ==> #[trigger] robots@[j] == recalled(old(robots)@[j]),
            forall|j: int| i <= j < robots@.len() ==> #[trigger] robots@[j] == old(robots)@[j],
        decreases robots@.len() - i,
    {
        let mut r = robots[i];
        if r.task != Task::Explore {
            r.state = RobotState::Collecting;
        }
        robots[i] = r;
        i = i + 1;
    }
}

/// `worlds`, `stepped` and `signals` witness one tick from `rs0` on `m0` to
/// `rs1` on `m1`: robot `i` takes its update on the world left by robots
/// `0..i`, and if any of them raised the signal, every robot is recalled
/// after the last update.
pub open spec fn tick_trace(
    rs0: Seq<Robot>,
    m0: World,
    rs1: Seq<Robot>,
    m1: World,
    worlds: Seq<World>,
    stepped: Seq<Robot>,
    signals: Seq<bool>,
) -> bool {
    let n = rs0.len();
    &&& worlds.len() == n + 1
    &&& stepped.len() == n
    &&& signals.len() == n
    &&& worlds[0] == m0
    &&& worlds[n as int] == m1
    &&& forall|i: int| 0 <= i < n ==> robot_step(rs0[i], worlds[i], #[trigger] stepped[i], worlds[i + 1], signals[i])
    &&& rs1.len() == n
    &&& forall|i: int| 0 <= i < n ==> #[trigger] rs1[i] == if signals.contains(true) {
        recalled(stepped[i])
    } else {
        stepped[i]
    }
}

/// One tick: updates every robot in list order, each seeing the world as the
/// robots before it left it, then recalls the collectors if an explorer came
/// home during the tick.
pub fn tick(map: &mut World, robots: &mut Vec<Robot>)
    requires
        old(map).wf(),
        forall|i: int| 0 <= i < old(robots)@.len() ==> ready(#[trigger] old(robots)@[i], old(map)),
    ensures
        old(map).same_layout(final(map)),
        final(robots)@.len() == old(robots)@.len(),
        forall|i: int| 0 <= i < final(robots)@.len() ==> (#[trigger] final(robots)@[i]).inside(final(map)),
        forall|i: int| 0 <= i < final(robots)@.len() ==> (#[trigger] final(robots)@[i]).task == old(robots)@[i].task,
        exists|worlds: Seq<World>, stepped: Seq<Robot>, signals: Seq<bool>|
            tick_trace(old(robots)@, *old(map), final(robots)@, *final(map), worlds, stepped, signals),
        forall|i: int|
            0 <= i < old(robots)@.len() && old(robots)@[i].task == Task::Explore && old(robots)@[i].state
                != RobotState::Collecting ==> (#[trigger] final(robots)@[i]).state != RobotState::Collecting,
{
    let ghost mut worlds: Seq<World> = seq![*map];
    let ghost mut stepped: Seq<Robot> = Seq::empty();
    let ghost mut signals: Seq<bool> = Seq::empty();
    let mut any_signal = false;
    let mut i: usize = 0;
    while i < robots.len()
        invariant
            old(map).same_layout(map),
            robots@.len() == old(robots)@.len(),
            i <= robots@.len(),
            forall|j: int| i <= j < robots@.len() ==> #[trigger] robots@[j] == old(robots)@[j],
            forall|j: int| 0 <= j < robots@.len() ==> ready(#[trigger] old(robots)@[j], old(map)),
            forall|j: int| 0 <= j < i ==> #[trigger] robots@[j] == stepped[j],
            forall|j: int| 0 <= j < i ==> (#[trigger] robots@[j]).inside(map),
            forall|j: int| 0 <= j < i ==> (#[trigger] robots@[j]).task == old(robots)@[j].task,
            worlds.len() == i + 1,
            stepped.len() == i,
            signals.len() == i,
            worlds[0] == *old(map),
            worlds[i as int] == *map,
            forall|j: int|
                0 <= j < i ==> robot_step(old(robots)@[j], worlds[j], #[trigger] stepped[j], worlds[j + 1], signals[j]),
            any_signal == signals.contains(true),
        decreases robots@.len() - i,
    {
        let mut r = robots[i];
        let signal = update_robot(&mut r, map);
        proof {
            worlds = worlds.push(*map);
            stepped = stepped.push(r);
            let prev = signals;
            signals = signals.push(signal);
            if prev.contains(true) {
                let k = choose|k: int| 0 <= k < prev.len() && prev[k] == true;
                assert(signals[k] == true);
            }
            if signal {
                assert(signals[i as int] == true);
            }
            if signals.contains(true) && !signal {
                let k = choose|k: int| 0 <= k < signals.len() && signals[k] == true;
                assert(prev[k] == true);
            }
        }
        robots[i] = r;
        any_signal = any_signal || signal;
        i = i + 1;
    }
    if any_signal {
        recall_collectors(robots);
    }
    assert(tick_trace(old(robots)@, *old(map), robots@, *map, worlds, stepped, signals));
    proof {
        lemma_tick_explorers_never_collect(old(robots)@, *old(map), robots@, *map, worlds, stepped, signals);
    }
}

/// An explorer never enters `Collecting`: neither its own update nor the
/// recall signal puts it there.
pub proof fn lemma_explorer_never_collects(r0: Robot, m0: World, r1: Robot, m1: World, signal: bool)
    requires
        robot_step(r0, m0, r1, m1, signal),
        r0.task == Task::Explore,
        r0.state != RobotState::Collecting,
    ensures
        r1.task == Task::Explore,
        r1.state != RobotState::Collecting,
        recalled(r1).state != RobotState::Collecting,
{
}

/// Over a whole tick, no explorer that was not collecting is collecting afterwards.
pub proof fn lemma_tick_explorers_never_collect(
    rs0: Seq<Robot>,
    m0: World,
    rs1: Seq<Robot>,
    m1: World,
    worlds: Seq<World>,
    stepped: Seq<Robot>,
    signals: Seq<bool>,
)
    requires
        tick_trace(rs0, m0, rs1, m1, worlds, stepped, signals),
    ensures
        forall|i: int|
            0 <= i < rs0.len() && rs0[i].task == Task::Explore && rs0[i].state != RobotState::Collecting
                ==> (#[trigger] rs1[i]).state != RobotState::Collecting,
{
    assert forall|i: int|
        0 <= i < rs0.len() && rs0[i].task == Task::Explore && rs0[i].state != RobotState::Collecting
            implies (#[trigger] rs1[i]).state != RobotState::Collecting by {
        lemma_explorer_never_collects(rs0[i], worlds[i], stepped[i], worlds[i + 1], signals[i]);
    }
}

} // verus!

//! Resource collection: find the nearest matching source, walk to it, and
//! take it when standing on it.

use vstd::prelude::*;
use crate::world::{World, Robot, Task, RobotState, manhattan, all_within};
use crate::movement::step_toward;
use crate::exploration::distance;

verus! {

/// The sources a robot with `task` collects from; explorers collect nothing.
pub open spec fn sources_for(map: &World, task: Task) -> Seq<(usize, usize)> {
    match task {
        Task::CollectEnergy => map.energy@,
        Task::CollectMinerals => map.minerals@,
        Task::Explore => Seq::empty(),
    }
}

/// How much of the resource that `task` collects the robot carries.
pub open spec fn carried_for(robot: Robot, task: Task) -> int {
    match task {
        Task::CollectEnergy => robot.energy as int,
        Task::CollectMinerals => robot.minerals as int,
        Task::Explore => 0,
    }
}

/// `ps` without any entry equal to `p`, the others kept in order.
pub open spec fn without(ps: Seq<(usize, usize)>, p: (usize, usize)) -> Seq<(usize, usize)> {
    ps.filter(other_than(p))
}

/// Holds of every position but `p`.
pub open spec fn other_than(p: (usize, usize)) -> spec_fn((usize, usize)) -> bool {
    |q: (usize, usize)| q != p
}

/// `i` indexes the source nearest to `(x, y)`, the earliest one on equal distances.
pub open spec fn is_first_nearest_source(ps: Seq<(usize, usize)>, x: int, y: int, i: int) -> bool {
    &&& 0 <= i < ps.len()
    &&& forall|j: int| 0 <= j < ps.len() ==> {
        &&& manhattan(x, y, ps[i].0 as int, ps[i].1 as int) <= manhattan(x, y, (#[trigger] ps[j]).0 as int, ps[j].1 as int)
        &&& j < i ==> manhattan(x, y, ps[i].0 as int, ps[i].1 as int) < manhattan(x, y, ps[j].0 as int, ps[j].1 as int)
    }
}

/// The index of the source nearest to `(x, y)`; meaningful when `ps` is not empty.
pub open spec fn first_nearest_source(ps: Seq<(usize, usize)>, x: int, y: int) -> int {
    choose|i: int| is_first_nearest_source(ps, x, y, i)
}

/// At most one index is the nearest source.
pub proof fn lemma_first_nearest_source_unique(ps: Seq<(usize, usize)>, x: int, y: int, a: int, b: int)
    requires
        is_first_nearest_source(ps, x, y, a),
        is_first_nearest_source(ps, x, y, b),
    ensures
        a == b,
{
    assert(ps[a] == ps[a]);
    assert(ps[b] == ps[b]);
}

/// Removing entries keeps the others on the grid.
proof fn lemma_without_within(ps: Seq<(usize, usize)>, p: (usize, usize), width: int, height: int)
    requires
        all_within(ps, width, height),
    ensures
        all_within(without(ps, p), width, height),
    decreases ps.len(),
{
    reveal(Seq::filter);
    if ps.len() > 0 {
        let rest = ps.drop_last();
        assert(all_within(rest, width, height)) by {
            assert forall|i: int| 0 <= i < rest.len() implies (#[trigger] rest[i]).0 < width && rest[i].1 < height by {
                assert(rest[i] == ps[i]);
            }
        }
        lemma_without_within(rest, p, width, height);
        assert(ps.last() == ps[ps.len() - 1]);
    }
}

/// A list with at least one source has a nearest one.
pub proof fn lemma_first_nearest_source_exists(ps: Seq<(usize, usize)>, x: int, y: int)
    requires
        ps.len() > 0,
    ensures
        exists|i: int| is_first_nearest_source(ps, x, y, i),
    decreases ps.len(),
{
    if ps.len() == 1 {
        assert(is_first_nearest_source(ps, x, y, 0));
    } else {
        let rest = ps.drop_last();
        lemma_first_nearest_source_exists(rest, x, y);
        let i = choose|i: int| is_first_nearest_source(rest, x, y, i);
        let n = ps.len() - 1;
        let di = manhattan(x, y, ps[i].0 as int, ps[i].1 as int);
        let dn = manhattan(x, y, ps[n].0 as int, ps[n].1 as int);
        assert(forall|j: int| 0 <= j < rest.len() ==> rest[j] == ps[j]);
        if dn < di {
            assert(is_first_nearest_source(ps, x, y, n));
        } else {
            assert(is_first_nearest_source(ps, x, y, i));
        }
    }
}

/// The index of the source nearest to `(x, y)` by Manhattan distance; on equal
/// distances the earliest in `sources` wins. `None` when there is no source.
pub fn nearest_source(sources: &Vec<(usize, usize)>, x: usize, y: usize, width: usize, height: usize) -> (r: Option<usize>)
    requires
        all_within(sources@, width as int, height as int),
        x < width,
        y < height,
        width + height <= usize::MAX,
    ensures
        r is None <==> sources@.len() == 0,
        r matches Some(i) ==> is_first_nearest_source(sources@, x as int, y as int, i as int),
{
    let mut best: Option<usize> = None;
    let mut best_d: usize = 0;
    let mut j: usize = 0;
    while j < sources.len()
        invariant
            all_within(sources@, width as int, height as int),
            x < width,
            y < height,
            width + height <= usize::MAX,
            j <= sources@.len(),
            best is None <==> j == 0,
            best matches Some(i) ==> {
                &&& i < j
                &&& best_d == manhattan(x as int, y as int, sources@[i as int].0 as int, sources@[i as int].1 as int)
                &&& forall|k: int| 0 <= k < j ==> {
                    &&& best_d <= manhattan(x as int, y as int, (#[trigger] sources@[k]).0 as int, sources@[k].1 as int)
                    &&& k < i ==> best_d < manhattan(x as int, y as int, sources@[k].0 as int, sources@[k].1 as int)
                }
            },
        decreases sources@.len() - j,
    {
        let p = sources[j];
        let d = distance(x, y, p.0, p.1);
        if best.is_none() || d < best_d {
            best = Some(j);
            best_d = d;
        }
        j = j + 1;
    }
    best
}

/// Removes every entry equal to `p` from `sources`, keeping the others in order.
pub fn remove_source(sources: &mut Vec<(usize, usize)>, p: (usize, usize))
    ensures
        final(sources)@ == without(old(sources)@, p),
{
    let mut kept: Vec<(usize, usize)> = Vec::new();
    let mut j: usize = 0;
    while j < sources.len()
        invariant
            sources@ == old(sources)@,
            j <= sources@.len(),
            kept@ == without(sources@.subrange(0, j as int), p),
        decreases sources@.len() - j,
    {
        let q = sources[j];
        proof {
            let f = other_than(p);
            assert(sources@.subrange(0, j + 1).drop_last() == sources@.subrange(0, j as int));
            reveal(Seq::filter);
            assert(sources@.subrange(0, j + 1).filter(f) == if f(q) {
                sources@.subrange(0, j as int).filter(f).push(q)
            } else {
                sources@.subrange(0, j as int).filter(f)
            });
        }
        if q.0 != p.0 || q.1 != p.1 {
            kept.push(q);
        }
        j = j + 1;
    }
    assert(sources@.subrange(0, sources@.len() as int) == sources@);
    *sources = kept;
}

/// How one collection step relates robot `r0` on `m0` to `r1` on `m1`.
/// Explorers do nothing. A collector whose kind of source is exhausted turns
/// back (`Returning`). Standing on the nearest source, it takes it: its
/// counter grows by one, every entry at that position leaves the source list
/// and it turns back. Otherwise it takes one unchecked step toward that source.
/// The fog-of-war flags never change.
pub open spec fn collect_step(r0: Robot, m0: World, r1: Robot, m1: World) -> bool {
    let task = r0.task;
    let srcs = sources_for(&m0, task);
    &&& m1.explored@ == m0.explored@
    &&& r1.task == task
    &&& if task == Task::Explore {
        &&& r1 == r0
        &&& m1.energy@ == m0.energy@
        &&& m1.minerals@ == m0.minerals@
    } else if srcs.len() == 0 {
        &&& r1 == (Robot { state: RobotState::Returning, ..r0 })
        &&& m1.energy@ == m0.energy@
        &&& m1.minerals@ == m0.minerals@
    } else {
        let p = srcs[first_nearest_source(srcs, r0.x as int, r0.y as int)];
        if p == (r0.x, r0.y) {
            &&& r1.x == r0.x && r1.y == r0.y
            &&& r1.state == RobotState::Returning
            &&& task == Task::CollectEnergy ==> {
                &&& r1.energy == r0.energy + 1
                &&& r1.minerals == r0.minerals
                &&& m1.energy@ == without(m0.energy@, p)
                &&& m1.minerals@ == m0.minerals@
            }
            &&& task == Task::CollectMinerals ==> {
                &&& r1.minerals == r0.minerals + 1
                &&& r1.energy == r0.energy
                &&& m1.minerals@ == without(m0.minerals@, p)
                &&& m1.energy@ == m0.energy@
            }
        } else {
            &&& r1.x == step_toward(r0.x as int, p.0 as int)
            &&& r1.y == step_toward(r0.y as int, p.1 as int)
            &&& r1.energy == r0.energy
            &&& r1.minerals == r0.minerals
            &&& r1.state == r0.state
            &&& m1.energy@ == m0.energy@
            &&& m1.minerals@ == m0.minerals@
        }
    }
}

/// One step of a robot in state `Collecting`; see [`collect_step`].
pub fn collect_resources(robot: &mut Robot, map: &mut World)
    requires
        old(map).wf(),
        old(robot).inside(old(map)),
        old(robot).energy < usize::MAX,
        old(robot).minerals < usize::MAX,
    ensures
        old(map).same_layout(final(map)),
        final(robot).inside(final(map)),
        collect_step(*old(robot), *old(map), *final(robot), *final(map)),
{
    let found = match robot.task {
        Task::CollectEnergy => nearest_source(&map.energy, robot.x, robot.y, map.width, map.height),
        Task::CollectMinerals => nearest_source(&map.minerals, robot.x, robot.y, map.width, map.height),
        Task::Explore => {
            return;
        },
    };
    let ghost srcs = sources_for(map, robot.task);
    match found {
        None => {
            robot.state = RobotState::Returning;
        },
        Some(i) => {
            let p = match robot.task {
                Task::CollectEnergy => map.energy[i],
                _ => map.minerals[i],
            };
            proof {
                let c = first_nearest_source(srcs, robot.x as int, robot.y as int);
                lemma_first_nearest_source_unique(srcs, robot.x as int, robot.y as int, c, i as int);
            }
            if p.0 == robot.x && p.1 == robot.y {
                match robot.task {
                    Task::CollectEnergy => {
                        robot.energy = robot.energy + 1;
                        remove_source(&mut map.energy, p);
                        proof { lemma_without_within(old(map).energy@, p, map.width as int, map.height as int); }
                    },
                    _ => {
                        robot.minerals = robot.minerals + 1;
                        remove_source(&mut map.minerals, p);
                        proof { lemma_without_within(old(map).minerals@, p, map.width as int, map.height as int); }
                    },
                }
                robot.state = RobotState::Returning;
            } else {
                robot.move_towards(p);
            }
        },
    }
}

/// Collection takes a source at most once. A collection step raises the
/// robot's counter by at most one; when it does, the robot stood on a source
/// of its kind, and that position no longer occurs among the sources. A robot
/// on a cell that holds no source of its kind collects nothing.
pub proof fn lemma_collect_once(r0: Robot, m0: World, r1: Robot, m1: World)
    requires
        collect_step(r0, m0, r1, m1),
    ensures
        ({
            let task = r0.task;
            let here = (r0.x, r0.y);
            &&& carried_for(r1, task) == carried_for(r0, task) || carried_for(r1, task) == carried_for(r0, task) + 1
            &&& carried_for(r1, task) == carried_for(r0, task) + 1 ==> sources_for(&m0, task).contains(here)
                && !sources_for(&m1, task).contains(here)
            &&& !sources_for(&m0, task).contains(here) ==> carried_for(r1, task) == carried_for(r0, task)
                && sources_for(&m1, task) == sources_for(&m0, task)
        }),
{
    let task = r0.task;
    let here = (r0.x, r0.y);
    let srcs = sources_for(&m0, task);
    if task != Task::Explore && srcs.len() > 0 {
        lemma_first_nearest_source_exists(srcs, r0.x as int, r0.y as int);
        let i = first_nearest_source(srcs, r0.x as int, r0.y as int);
        let p = srcs[i];
        if p == here {
            assert(srcs.contains(here));
            let rest = without(srcs, p);
            assert(sources_for(&m1, task) == rest);
            if rest.contains(here) {
                let k = choose|k: int| 0 <= k < rest.len() && rest[k] == here;
                srcs.lemma_filter_pred(other_than(p), k);
            }
        } else {
            assert(srcs.contains(p));
        }
    }
}

} // verus!

//! The single-step greedy movement primitive, in its unchecked and its
//! obstacle-checked form.

use vstd::prelude::*;
use crate::world::{World, Robot};

verus! {

/// One unit along an axis from `a` toward `b`, or `a` itself when they agree.
pub open spec fn step_toward(a: int, b: int) -> int {
    if a < b {
        a + 1
    } else if a > b {
        a - 1
    } else {
        a
    }
}

/// Moves one unit from `a` toward `b`.
pub fn advance(a: usize, b: usize) -> (r: usize)
    ensures
        r == step_toward(a as int, b as int),
{
    if a < b {
        a + 1
    } else if a > b {
        a - 1
    } else {
        a
    }
}

/// How the obstacle-checked policy moves `r0` toward `target` on `map`: the
/// step is taken when it lands on a cell of the grid that is not an obstacle,
/// otherwise the robot stays; nothing but the position changes.
pub open spec fn checked_step(r0: Robot, target: (usize, usize), map: &World, r1: Robot) -> bool {
    let nx = step_toward(r0.x as int, target.0 as int);
    let ny = step_toward(r0.y as int, target.1 as int);
    &&& if map.in_bounds(nx, ny) && !map.obstacle_at(nx, ny) {
        r1.x == nx && r1.y == ny
    } else {
        r1.x == r0.x && r1.y == r0.y
    }
    &&& r1.energy == r0.energy
    &&& r1.minerals == r0.minerals
    &&& r1.task == r0.task
    &&& r1.state == r0.state
}

/// Under the obstacle-checked policy a robot is never placed on an obstacle:
/// one that moves lands on a free cell of the grid, and one that starts on a
/// free cell of the grid stays on one.
pub proof fn lemma_checked_move_avoids_obstacles(r0: Robot, target: (usize, usize), map: &World, r1: Robot)
    requires
        checked_step(r0, target, map, r1),
    ensures
        (r1.x != r0.x || r1.y != r0.y) ==> r1.inside(map) && !map.obstacle_at(r1.x as int, r1.y as int),
        r0.inside(map) && !map.obstacle_at(r0.x as int, r0.y as int) ==> r1.inside(map) && !map.obstacle_at(
            r1.x as int,
            r1.y as int,
        ),
{
}

impl Robot {
    /// Unchecked policy: one diagonal-capable step toward `target`, always taken.
    pub fn move_towards(&mut self, target: (usize, usize))
        ensures
            final(self).x == step_toward(old(self).x as int, target.0 as int),
            final(self).y == step_toward(old(self).y as int, target.1 as int),
            final(self).energy == old(self).energy,
            final(self).minerals == old(self).minerals,
            final(self).task == old(self).task,
            final(self).state == old(self).state,
    {
        self.x = advance(self.x, target.0);
        self.y = advance(self.y, target.1);
    }

    /// Obstacle-checked policy: the same step, taken only when it lands on a
    /// cell of the grid that is not an obstacle; otherwise the robot stays.
    pub fn move_towards_checked(&mut self, target: (usize, usize), map: &World)
        requires
            map.wf(),
        ensures
            checked_step(*old(self), target, map, *final(self)),
            old(self).inside(map) && !map.obstacle_at(old(self).x as int, old(self).y as int) ==> final(self).inside(map)
                && !map.obstacle_at(final(self).x as int, final(self).y as int),
    {
        let nx = advance(self.x, target.0);
        let ny = advance(self.y, target.1);
        if nx < map.width && ny < map.height && !map.obstacles[ny][nx] {
            self.x = nx;
            self.y = ny;
        }
    }
}

} // verus!

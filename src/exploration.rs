//! Fog-of-war exploration: pick the nearest unrevealed cell, step toward it,
//! and reveal the cells around the robot's new position.

use vstd::prelude::*;
use crate::world::{World, Robot, manhattan, grid_shaped};
use crate::movement::step_toward;

verus! {

/// `(ax, ay)` comes before `(bx, by)` in a row-major scan of the grid.
pub open spec fn scan_before(ax: int, ay: int, bx: int, by: int) -> bool {
    ay < by || (ay == by && ax < bx)
}

/// `(x, y)` is within one cell of `(cx, cy)` on both axes.
pub open spec fn near(cx: int, cy: int, x: int, y: int) -> bool {
    -1 <= x - cx <= 1 && -1 <= y - cy <= 1
}

/// `t` is the target of the exploration search from `(rx, ry)`: an unrevealed cell
/// at the least Manhattan distance, and the first such cell in row-major order.
pub open spec fn is_first_nearest(map: &World, rx: int, ry: int, t: (int, int)) -> bool {
    &&& map.in_bounds(t.0, t.1)
    &&& !map.explored_at(t.0, t.1)
    &&& forall|x: int, y: int|
        map.in_bounds(x, y) && !#[trigger] map.explored_at(x, y) ==> {
            &&& manhattan(rx, ry, t.0, t.1) <= manhattan(rx, ry, x, y)
            &&& scan_before(x, y, t.0, t.1) ==> manhattan(rx, ry, t.0, t.1) < manhattan(rx, ry, x, y)
        }
}

/// The exploration target from `(rx, ry)`; meaningful while some cell is unrevealed.
pub open spec fn first_nearest_unexplored(map: &World, rx: int, ry: int) -> (int, int) {
    choose|t: (int, int)| is_first_nearest(map, rx, ry, t)
}

/// Marking the cells within one step of `(cx, cy)` turns `before` into `after`.
pub open spec fn revealed_around(
    before: Seq<Vec<bool>>,
    after: Seq<Vec<bool>>,
    width: int,
    height: int,
    cx: int,
    cy: int,
) -> bool {
    &&& grid_shaped(after, width, height)
    &&& forall|x: int, y: int|
        0 <= x < width && 0 <= y < height ==> #[trigger] after[y]@[x] == (before[y]@[x] || near(cx, cy, x, y))
}

/// At most one cell is the exploration target.
pub proof fn lemma_first_nearest_unique(map: &World, rx: int, ry: int, a: (int, int), b: (int, int))
    requires
        is_first_nearest(map, rx, ry, a),
        is_first_nearest(map, rx, ry, b),
    ensures
        a == b,
{
    assert(!map.explored_at(b.0, b.1));
    assert(!map.explored_at(a.0, a.1));
}

/// Manhattan distance between two cells of the grid as a machine integer.
pub fn distance(ax: usize, ay: usize, bx: usize, by: usize) -> (d: usize)
    requires
        manhattan(ax as int, ay as int, bx as int, by as int) <= usize::MAX,
    ensures
        d == manhattan(ax as int, ay as int, bx as int, by as int),
{
    let dx = if ax >= bx { ax - bx } else { bx - ax };
    let dy = if ay >= by { ay - by } else { by - ay };
    dx + dy
}

/// Scans the grid row by row for the nearest unrevealed cell to `(rx, ry)`;
/// on equal distances the first cell scanned wins.
pub fn nearest_unexplored(map: &World, rx: usize, ry: usize) -> (r: Option<(usize, usize)>)
    requires
        map.wf(),
        rx < map.width,
        ry < map.height,
    ensures
        r is None <==> map.fully_explored(),
        r matches Some(t) ==> is_first_nearest(map, rx as int, ry as int, (t.0 as int, t.1 as int)),
{
    let mut best: Option<(usize, usize)> = None;
    let mut best_d: usize = 0;
    let mut y: usize = 0;
    while y < map.height
        invariant
            map.wf(),
            rx < map.width,
            ry < map.height,
            y <= map.height,
            best is None ==> forall|cx: int, cy: int|
                0 <= cx < map.width && 0 <= cy < y ==> #[trigger] map.explored_at(cx, cy),
            best matches Some(t) ==> {
                &&& t.0 < map.width
                &&& t.1 < y
                &&& !map.explored_at(t.0 as int, t.1 as int)
                &&& best_d == manhattan(rx as int, ry as int, t.0 as int, t.1 as int)
                &&& forall|cx: int, cy: int|
                    0 <= cx < map.width && 0 <= cy < y && !#[trigger] map.explored_at(cx, cy) ==> {
                        &&& best_d <= manhattan(rx as int, ry as int, cx, cy)
                        &&& scan_before(cx, cy, t.0 as int, t.1 as int) ==> best_d < manhattan(
                            rx as int,
                            ry as int,
                            cx,
                            cy,
                        )
                    }
            },
        decreases map.height - y,
    {
        let row = &map.explored[y];
        let mut x: usize = 0;
        while x < map.width
            invariant
                map.wf(),
                rx < map.width,
                ry < map.height,
                y < map.height,
                x <= map.width,
                row@ == map.explored@[y as int]@,
                best is None ==> forall|cx: int, cy: int|
                    (0 <= cx < map.width && 0 <= cy < y) || (0 <= cx < x && cy == y)
                        ==> #[trigger] map.explored_at(cx, cy),
                best matches Some(t) ==> {
                    &&& t.0 < map.width
                    &&& (t.1 < y || (t.1 == y && t.0 < x))
                    &&& !map.explored_at(t.0 as int, t.1 as int)
                    &&& best_d == manhattan(rx as int, ry as int, t.0 as int, t.1 as int)
                    &&& forall|cx: int, cy: int|
                        ((0 <= cx < map.width && 0 <= cy < y) || (0 <= cx < x && cy == y))
                            && !#[trigger] map.explored_at(cx, cy) ==> {
                            &&& best_d <= manhattan(rx as int, ry as int, cx, cy)
                            &&& scan_before(cx, cy, t.0 as int, t.1 as int) ==> best_d < manhattan(
                                rx as int,
                                ry as int,
                                cx,
                                cy,
                            )
                        }
                },
            decreases map.width - x,
        {
            if !row[x] {
                let d = distance(rx, ry, x, y);
                if best.is_none() || d < best_d {
                    best = Some((x, y));
                    best_d = d;
                }
            }
            x = x + 1;
        }
        y = y + 1;
    }
    proof {
        if best is None {
            assert forall|cx: int, cy: int| map.in_bounds(cx, cy) implies #[trigger] map.explored_at(cx, cy) by {}
        }
    }
    best
}

/// Reveals every cell of the grid within one step of `(cx, cy)` on both axes.
pub fn reveal_around(map: &mut World, cx: usize, cy: usize)
    requires
        old(map).wf(),
        cx < old(map).width,
        cy < old(map).height,
    ensures
        final(map).wf(),
        final(map).width == old(map).width,
        final(map).height == old(map).height,
        final(map).obstacles@ == old(map).obstacles@,
        final(map).energy@ == old(map).energy@,
        final(map).minerals@ == old(map).minerals@,
        final(map).base == old(map).base,
        revealed_around(
            old(map).explored@,
            final(map).explored@,
            old(map).width as int,
            old(map).height as int,
            cx as int,
            cy as int,
        ),
{
    let ghost before = map.explored@;
    let lo_x: usize = if cx > 0 { cx - 1 } else { 0 };
    let hi_x: usize = if cx + 1 < map.width { cx + 1 } else { cx };
    let lo_y: usize = if cy > 0 { cy - 1 } else { 0 };
    let hi_y: usize = if cy + 1 < map.height { cy + 1 } else { cy };
    let mut y: usize = lo_y;
    while y <= hi_y
        invariant
            map.wf(),
            map.width == old(map).width,
            map.height == old(map).height,
            map.obstacles@ == old(map).obstacles@,
            map.energy@ == old(map).energy@,
            map.minerals@ == old(map).minerals@,
            map.base == old(map).base,
            before == old(map).explored@,
            lo_x == (if cx > 0 { cx - 1 } else { 0 }),
            hi_x == (if cx + 1 < map.width { cx + 1 } else { cx as int }),
            lo_y == (if cy > 0 { cy - 1 } else { 0 }),
            hi_y == (if cy + 1 < map.height { cy + 1 } else { cy as int }),
            cx < map.width,
            cy < map.height,
            lo_y <= y <= hi_y + 1,
            forall|x: int, yy: int|
                0 <= x < map.width && 0 <= yy < map.height ==> #[trigger] map.explored@[yy]@[x] == (
                before[yy]@[x] || (near(cx as int, cy as int, x, yy) && yy < y)),
        decreases hi_y + 1 - y,
    {
        let mut row: Vec<bool> = Vec::new();
        let mut x: usize = 0;
        while x < map.width
            invariant
                map.wf(),
                y <= hi_y,
                hi_y < map.height,
                x <= map.width,
                row@.len() == x,
                forall|i: int| 0 <= i < x ==> #[trigger] row@[i] == (map.explored@[y as int]@[i] || (lo_x <= i
                    <= hi_x)),
            decreases map.width - x,
        {
            row.push(map.explored[y][x] || (lo_x <= x && x <= hi_x));
            x = x + 1;
        }
        map.explored[y] = row;
        y = y + 1;
    }
}

/// How one exploration step relates robot `r0` on `m0` to `r1` on `m1`: nothing
/// changes once the grid is revealed; otherwise the robot takes one unchecked
/// step toward the exploration target and the cells around its new position
/// are revealed. Only the position and the fog-of-war flags change.
pub open spec fn explore_step(r0: Robot, m0: World, r1: Robot, m1: World) -> bool {
    &&& m1.energy@ == m0.energy@
    &&& m1.minerals@ == m0.minerals@
    &&& r1.energy == r0.energy
    &&& r1.minerals == r0.minerals
    &&& r1.task == r0.task
    &&& r1.state == r0.state
    &&& if m0.fully_explored() {
        r1.x == r0.x && r1.y == r0.y && m1.explored@ == m0.explored@
    } else {
        let t = first_nearest_unexplored(&m0, r0.x as int, r0.y as int);
        &&& r1.x == step_toward(r0.x as int, t.0)
        &&& r1.y == step_toward(r0.y as int, t.1)
        &&& revealed_around(m0.explored@, m1.explored@, m0.width as int, m0.height as int, r1.x as int, r1.y as int)
    }
}

/// One exploration step: find the target cell, take one unchecked step toward
/// it, then reveal the cells around the robot's new position. Nothing happens
/// once the whole grid is revealed.
pub fn explore_map(robot: &mut Robot, map: &mut World)
    requires
        old(map).wf(),
        old(robot).inside(old(map)),
    ensures
        old(map).same_layout(final(map)),
        final(robot).inside(final(map)),
        explore_step(*old(robot), *old(map), *final(robot), *final(map)),
{
    match nearest_unexplored(map, robot.x, robot.y) {
        None => {},
        Some(t) => {
            proof {
                let c = first_nearest_unexplored(map, robot.x as int, robot.y as int);
                assert(is_first_nearest(map, robot.x as int, robot.y as int, (t.0 as int, t.1 as int)));
                lemma_first_nearest_unique(map, robot.x as int, robot.y as int, c, (t.0 as int, t.1 as int));
            }
            robot.move_towards(t);
            reveal_around(map, robot.x, robot.y);
        },
    }
}

/// After an exploration step every cell of the grid within one step of the
/// robot's new position is revealed.
pub proof fn lemma_explore_reveals_neighborhood(r0: Robot, m0: World, r1: Robot, m1: World)
    requires
        m0.wf(),
        m0.same_layout(&m1),
        explore_step(r0, m0, r1, m1),
    ensures
        forall|x: int, y: int|
            m1.in_bounds(x, y) && near(r1.x as int, r1.y as int, x, y) ==> #[trigger] m1.explored_at(x, y),
{
    assert forall|x: int, y: int| m1.in_bounds(x, y) && near(r1.x as int, r1.y as int, x, y) implies #[trigger] m1.explored_at(
        x,
        y,
    ) by {
        if m0.fully_explored() {
            assert(m0.explored_at(x, y));
        } else {
            assert(m1.explored@[y]@[x] == (m0.explored@[y]@[x] || near(r1.x as int, r1.y as int, x, y)));
        }
    }
}

} // verus!

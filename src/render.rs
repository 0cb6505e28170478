//! The picture of a tick: one colour per cell, in a buffer laid out row by row.

use vstd::prelude::*;
use crate::world::{
    World, Robot, RobotState, cell_index, lemma_cell_index_bounds, lemma_cell_index_injective,
    lemma_cell_index_inverse,
};
use crate::terrain::holds_site;

verus! {

/// The base cross.
pub const BASE_COLOR: u32 = 0xFF00FFFF;

/// A cell not yet revealed.
pub const FOG_COLOR: u32 = 0xFFAAAAAA;

/// A revealed obstacle.
pub const OBSTACLE_COLOR: u32 = 0xFF000000;

/// A revealed energy source.
pub const ENERGY_COLOR: u32 = 0xFF00FF00;

/// A revealed mineral deposit.
pub const MINERAL_COLOR: u32 = 0xFFFF0000;

/// Revealed open floor.
pub const FLOOR_COLOR: u32 = 0xFFFFFFFF;

/// A robot in state `Exploring`.
pub const EXPLORING_COLOR: u32 = 0xFFFFFF00;

/// A robot returning to the base or collecting.
pub const BUSY_COLOR: u32 = 0xFFFF00FF;

/// `(x, y)` lies on the cross of five cells centred on the base.
pub open spec fn on_base_cross(map: &World, x: int, y: int) -> bool {
    let bx = map.base.0 as int;
    let by = map.base.1 as int;
    (x == bx && by - 1 <= y <= by + 1) || (y == by && bx - 1 <= x <= bx + 1)
}

/// The colour of cell `(x, y)` before robots are drawn: the base cross over
/// everything, fog on unrevealed cells, then obstacle, energy, minerals or floor.
pub open spec fn cell_color(map: &World, x: int, y: int) -> u32 {
    if on_base_cross(map, x, y) {
        BASE_COLOR
    } else if !map.explored_at(x, y) {
        FOG_COLOR
    } else if map.obstacle_at(x, y) {
        OBSTACLE_COLOR
    } else if map.energy@.contains((x as usize, y as usize)) {
        ENERGY_COLOR
    } else if map.minerals@.contains((x as usize, y as usize)) {
        MINERAL_COLOR
    } else {
        FLOOR_COLOR
    }
}

/// The colour of a robot: one for exploring, one for returning or collecting.
pub open spec fn robot_color(r: Robot) -> u32 {
    match r.state {
        RobotState::Exploring => EXPLORING_COLOR,
        RobotState::Returning => BUSY_COLOR,
        RobotState::Collecting => BUSY_COLOR,
    }
}

/// The colour shown at `(x, y)`: the last robot of `robots` on that cell, or
/// the cell's own colour when no robot stands there.
pub open spec fn pixel(map: &World, robots: Seq<Robot>, x: int, y: int) -> u32
    decreases robots.len(),
{
    if robots.len() == 0 {
        cell_color(map, x, y)
    } else if robots.last().x == x && robots.last().y == y {
        robot_color(robots.last())
    } else {
        pixel(map, robots.drop_last(), x, y)
    }
}

/// The colour of cell `(x, y)` before robots are drawn.
pub fn color_of_cell(map: &World, x: usize, y: usize) -> (c: u32)
    requires
        map.wf(),
        x < map.width,
        y < map.height,
    ensures
        c == cell_color(map, x as int, y as int),
{
    let (bx, by) = map.base;
    let cross = (x == bx && y + 1 >= by && y <= by + 1) || (y == by && x + 1 >= bx && x <= bx + 1);
    if cross {
        BASE_COLOR
    } else if !map.explored[y][x] {
        FOG_COLOR
    } else if map.obstacles[y][x] {
        OBSTACLE_COLOR
    } else if holds_site(&map.energy, (x, y)) {
        ENERGY_COLOR
    } else if holds_site(&map.minerals, (x, y)) {
        MINERAL_COLOR
    } else {
        FLOOR_COLOR
    }
}

/// The colour of a robot.
pub fn color_of_robot(r: &Robot) -> (c: u32)
    ensures
        c == robot_color(*r),
{
    match r.state {
        RobotState::Exploring => EXPLORING_COLOR,
        RobotState::Returning => BUSY_COLOR,
        RobotState::Collecting => BUSY_COLOR,
    }
}

/// The picture of the world with its robots drawn in list order over the
/// cells, one colour per cell at `y * width + x`.
pub fn render_buffer(map: &World, robots: &Vec<Robot>) -> (buf: Vec<u32>)
    requires
        map.wf(),
        map.width * map.height <= usize::MAX,
        forall|i: int| 0 <= i < robots@.len() ==> (#[trigger] robots@[i]).inside(map),
    ensures
        buf@.len() == map.width * map.height,
        forall|x: usize, y: usize|
            x < map.width && y < map.height ==> #[trigger] buf@[cell_index((x, y), map.width as int)] == pixel(
                map,
                robots@,
                x as int,
                y as int,
            ),
{
    let ghost w = map.width as int;
    let mut buf: Vec<u32> = Vec::new();
    let mut y: usize = 0;
    while y < map.height
        invariant
            map.wf(),
            w == map.width,
            y <= map.height,
            buf@.len() == y * w,
            forall|k: int| 0 <= k < buf@.len() ==> #[trigger] buf@[k] == cell_color(map, k % w, k / w),
        decreases map.height - y,
    {
        let mut x: usize = 0;
        while x < map.width
            invariant
                map.wf(),
                w == map.width,
                y < map.height,
                x <= map.width,
                buf@.len() == y * w + x,
                forall|k: int| 0 <= k < buf@.len() ==> #[trigger] buf@[k] == cell_color(map, k % w, k / w),
            decreases map.width - x,
        {
            proof {
                lemma_cell_index_inverse((x, y), w);
            }
            let c = color_of_cell(map, x, y);
            buf.push(c);
            x = x + 1;
        }
        assert(y * w + w == (y + 1) * w) by (nonlinear_arith);
        y = y + 1;
    }
    assert(buf@.len() == map.width * map.height) by (nonlinear_arith)
        requires
            buf@.len() == y * w,
            y == map.height,
            w == map.width,
    ;
    assert forall|x: usize, y: usize| x < map.width && y < map.height implies #[trigger] buf@[cell_index(
        (x, y),
        w,
    )] == pixel(map, robots@.subrange(0, 0), x as int, y as int) by {
        lemma_cell_index_inverse((x, y), w);
        lemma_cell_index_bounds((x, y), w, map.height as int);
    }
    let mut i: usize = 0;
    while i < robots.len()
        invariant
            map.wf(),
            w == map.width,
            map.width * map.height <= usize::MAX,
            forall|j: int| 0 <= j < robots@.len() ==> (#[trigger] robots@[j]).inside(map),
            i <= robots@.len(),
            buf@.len() == map.width * map.height,
            forall|x: usize, y: usize|
                x < map.width && y < map.height ==> #[trigger] buf@[cell_index((x, y), w)] == pixel(
                    map,
                    robots@.subrange(0, i as int),
                    x as int,
                    y as int,
                ),
        decreases robots@.len() - i,
    {
        let r = robots[i];
        proof {
            lemma_cell_index_bounds((r.x, r.y), w, map.height as int);
        }
        let at = r.y * map.width + r.x;
        let ghost before = buf@;
        assert(at == cell_index((r.x, r.y), w));
        buf.set(at, color_of_robot(&r));
        proof {
            let done = robots@.subrange(0, i + 1);
            assert(done.drop_last() == robots@.subrange(0, i as int));
            assert(done.last() == r);
            assert forall|x: usize, y: usize| x < map.width && y < map.height implies #[trigger] buf@[cell_index(
                (x, y),
                w,
            )] == pixel(map, done, x as int, y as int) by {
                lemma_cell_index_bounds((x, y), w, map.height as int);
                if x != r.x || y != r.y {
                    if cell_index((x, y), w) == cell_index((r.x, r.y), w) {
                        lemma_cell_index_injective((x, y), (r.x, r.y), w);
                    }
                    assert(buf@[cell_index((x, y), w)] == before[cell_index((x, y), w)]);
                }
            }
        }
        i = i + 1;
    }
    assert(robots@.subrange(0, robots@.len() as int) == robots@);
    buf
}

} // verus!

//! The world grid, the robots that act on it, and the facts every other
//! module relies on about their shape.

use vstd::prelude::*;
use vstd::arithmetic::div_mod::lemma_fundamental_div_mod_converse;

verus! {

/// What a robot was built to do; fixed when the robot is created.
#[derive(Clone, Copy, Debug, PartialEq, Eq, Structural)]
pub enum Task {
    CollectEnergy,
    CollectMinerals,
    Explore,
}

/// Where a robot stands in its exploration and collection cycle.
#[derive(Clone, Copy, Debug, PartialEq, Eq, Structural)]
pub enum RobotState {
    Exploring,
    Returning,
    Collecting,
}

/// A robot: its cell, what it carries, its task and its current state.
#[derive(Clone, Copy, Debug, PartialEq, Eq, Structural)]
pub struct Robot {
    pub x: usize,
    pub y: usize,
    pub energy: usize,
    pub minerals: usize,
    pub task: Task,
    pub state: RobotState,
}

/// The world: a `width` by `height` grid stored row by row (`obstacles[y][x]`),
/// the fog-of-war flags laid out the same way, the resource sources and the base.
#[derive(Debug)]
pub struct World {
    pub width: usize,
    pub height: usize,
    pub obstacles: Vec<Vec<bool>>,
    pub energy: Vec<(usize, usize)>,
    pub minerals: Vec<(usize, usize)>,
    pub base: (usize, usize),
    pub explored: Vec<Vec<bool>>,
}

/// Distance between two cells counted in axis-aligned unit moves.
pub open spec fn manhattan(ax: int, ay: int, bx: int, by: int) -> int {
    (if ax >= bx { ax - bx } else { bx - ax }) + (if ay >= by { ay - by } else { by - ay })
}

/// Every row of `g` has `width` cells and there are `height` rows.
pub open spec fn grid_shaped(g: Seq<Vec<bool>>, width: int, height: int) -> bool {
    &&& g.len() == height
    &&& forall|y: int| 0 <= y < height ==> (#[trigger] g[y])@.len() == width
}

/// Every position of `ps` lies on a `width` by `height` grid.
pub open spec fn all_within(ps: Seq<(usize, usize)>, width: int, height: int) -> bool {
    forall|i: int| 0 <= i < ps.len() ==> (#[trigger] ps[i]).0 < width && ps[i].1 < height
}

impl World {
    /// The shape every operation on a map relies on.
    pub open spec fn wf(&self) -> bool {
        &&& 0 < self.width
        &&& 0 < self.height
        &&& self.width + self.height <= usize::MAX
        &&& grid_shaped(self.obstacles@, self.width as int, self.height as int)
        &&& grid_shaped(self.explored@, self.width as int, self.height as int)
        &&& self.base.0 < self.width
        &&& self.base.1 < self.height
        &&& all_within(self.energy@, self.width as int, self.height as int)
        &&& all_within(self.minerals@, self.width as int, self.height as int)
    }

    pub open spec fn in_bounds(&self, x: int, y: int) -> bool {
        0 <= x < self.width && 0 <= y < self.height
    }

    pub open spec fn explored_at(&self, x: int, y: int) -> bool {
        self.explored@[y]@[x]
    }

    pub open spec fn obstacle_at(&self, x: int, y: int) -> bool {
        self.obstacles@[y]@[x]
    }

    /// `after` is a well-formed world with the grid, obstacles and base of `self`.
    pub open spec fn same_layout(&self, after: &World) -> bool {
        &&& after.wf()
        &&& after.width == self.width
        &&& after.height == self.height
        &&& after.obstacles@ == self.obstacles@
        &&& after.base == self.base
    }

    /// `after` holds the same fog-of-war flags and sources as `self`.
    pub open spec fn same_contents(&self, after: &World) -> bool {
        &&& after.explored@ == self.explored@
        &&& after.energy@ == self.energy@
        &&& after.minerals@ == self.minerals@
    }

    /// Every cell of the grid has been revealed.
    pub open spec fn fully_explored(&self) -> bool {
        forall|x: int, y: int| self.in_bounds(x, y) ==> #[trigger] self.explored_at(x, y)
    }
}

/// True exactly when every cell of the grid has been revealed.
pub fn is_map_fully_explored(map: &World) -> (r: bool)
    requires
        map.wf(),
    ensures
        r == map.fully_explored(),
{
    let mut y: usize = 0;
    while y < map.height
        invariant
            map.wf(),
            y <= map.height,
            forall|cx: int, cy: int|
                0 <= cx < map.width && 0 <= cy < y ==> #[trigger] map.explored_at(cx, cy),
        decreases map.height - y,
    {
        let row = &map.explored[y];
        let mut x: usize = 0;
        while x < map.width
            invariant
                map.wf(),
                y < map.height,
                x <= map.width,
                row@ == map.explored@[y as int]@,
                forall|cx: int, cy: int|
                    0 <= cx < map.width && 0 <= cy < y ==> #[trigger] map.explored_at(cx, cy),
                forall|cx: int| 0 <= cx < x ==> #[trigger] map.explored_at(cx, y as int),
            decreases map.width - x,
        {
            if !row[x] {
                assert(map.in_bounds(x as int, y as int) && !map.explored_at(x as int, y as int));
                return false;
            }
            x = x + 1;
        }
        y = y + 1;
    }
    true
}

impl Robot {
    /// A robot at `(x, y)` carrying nothing, in state `Exploring`.
    pub fn new(x: usize, y: usize, task: Task) -> (r: Robot)
        ensures
            r.x == x,
            r.y == y,
            r.energy == 0,
            r.minerals == 0,
            r.task == task,
            r.state == RobotState::Exploring,
    {
        Robot { x, y, energy: 0, minerals: 0, task, state: RobotState::Exploring }
    }

    /// The robot stands on a cell of `map`.
    pub open spec fn inside(&self, map: &World) -> bool {
        self.x < map.width && self.y < map.height
    }
}

/// The place of cell `p` in a row-major layout of rows `width` cells wide.
pub open spec fn cell_index(p: (usize, usize), width: int) -> int {
    p.1 * width + p.0
}

/// The place of a cell of the grid lies within the grid's layout.
pub proof fn lemma_cell_index_bounds(p: (usize, usize), width: int, height: int)
    requires
        p.0 < width,
        p.1 < height,
    ensures
        0 <= cell_index(p, width) < width * height,
{
    assert(p.1 * width <= (height - 1) * width) by (nonlinear_arith)
        requires
            p.1 <= height - 1,
            0 < width,
    ;
    assert((height - 1) * width + width == height * width) by (nonlinear_arith);
    assert(0 <= p.1 * width) by (nonlinear_arith)
        requires
            0 < width,
    ;
}

/// Distinct cells of the grid have distinct places.
pub proof fn lemma_cell_index_injective(p: (usize, usize), q: (usize, usize), width: int)
    requires
        p.0 < width,
        q.0 < width,
        cell_index(p, width) == cell_index(q, width),
    ensures
        p == q,
{
    let i = cell_index(p, width);
    lemma_fundamental_div_mod_converse(i, width, p.1 as int, p.0 as int);
    lemma_fundamental_div_mod_converse(i, width, q.1 as int, q.0 as int);
}

/// A cell's place gives back its column and its row.
pub proof fn lemma_cell_index_inverse(p: (usize, usize), width: int)
    requires
        p.0 < width,
    ensures
        cell_index(p, width) % width == p.0,
        cell_index(p, width) / width == p.1,
{
    lemma_fundamental_div_mod_converse(cell_index(p, width), width, p.1 as int, p.0 as int);
}

} // verus!

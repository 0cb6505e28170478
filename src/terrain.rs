//! World generation: obstacle layouts, and resource placement by rejection
//! sampling from a seeded random source.

use vstd::prelude::*;
use vstd::set_lib::{set_int_range, lemma_int_range, lemma_len_subset};
use rand::rngs::StdRng;
use rand::{Rng, SeedableRng};
use crate::world::{World, grid_shaped, all_within, cell_index, lemma_cell_index_bounds, lemma_cell_index_injective};

verus! {

/// How many sources of each kind a generated world holds.
pub const RESOURCE_COUNT: usize = 10;

/// How many draws resource placement may spend on one kind of source.
pub const PLACEMENT_BUDGET: usize = 100000;

/// Noise samples are given in thousandths; a cell whose sample exceeds this
/// value is an obstacle.
pub const NOISE_THRESHOLD: i32 = 500;

/// Why a world could not be generated.
#[derive(Clone, Copy, Debug, PartialEq, Eq, Structural)]
pub enum GenerationError {
    /// The energy sources could not all be placed within the draw budget.
    EnergyPlacement,
    /// The mineral sources could not all be placed within the draw budget.
    MineralPlacement,
}

#[verifier::external_type_specification]
#[verifier::external_body]
pub struct ExStdRng(StdRng);

/// Relies on rand's `SeedableRng::seed_from_u64`: a generator determined by `seed`.
#[verifier::external_body]
fn seeded_rng(seed: u64) -> (r: StdRng) {
    StdRng::seed_from_u64(seed)
}

/// Relies on rand's `Rng::gen_range` over `0..bound`: a value below `bound`
/// (the range must not be empty).
#[verifier::external_body]
fn draw_below(rng: &mut StdRng, bound: usize) -> (r: usize)
    requires
        bound > 0,
    ensures
        r < bound,
{
    rng.gen_range(0..bound)
}

/// The outer ring of a `width` by `height` grid.
pub open spec fn on_border(x: int, y: int, width: int, height: int) -> bool {
    x == 0 || y == 0 || x == width - 1 || y == height - 1
}

/// The bordered layout: every cell of the outer ring is an obstacle, no other.
pub fn border_terrain(width: usize, height: usize) -> (g: Vec<Vec<bool>>)
    ensures
        grid_shaped(g@, width as int, height as int),
        forall|x: int, y: int|
            0 <= x < width && 0 <= y < height ==> #[trigger] g@[y]@[x] == on_border(x, y, width as int, height as int),
{
    let mut g: Vec<Vec<bool>> = Vec::new();
    let mut y: usize = 0;
    while y < height
        invariant
            y <= height,
            grid_shaped(g@, width as int, y as int),
            forall|cx: int, cy: int|
                0 <= cx < width && 0 <= cy < y ==> #[trigger] g@[cy]@[cx] == on_border(cx, cy, width as int, height as int),
        decreases height - y,
    {
        let mut row: Vec<bool> = Vec::new();
        let mut x: usize = 0;
        while x < width
            invariant
                x <= width,
                y < height,
                row@.len() == x,
                forall|cx: int| 0 <= cx < x ==> #[trigger] row@[cx] == on_border(cx, y as int, width as int, height as int),
            decreases width - x,
        {
            row.push(x == 0 || y == 0 || x + 1 == width || y + 1 == height);
            x = x + 1;
        }
        g.push(row);
        y = y + 1;
    }
    g
}

/// The noise layout: a cell is an obstacle when its noise sample, given in
/// thousandths, exceeds [`NOISE_THRESHOLD`]. The result has the shape of `samples`.
pub fn threshold_terrain(samples: &Vec<Vec<i32>>) -> (g: Vec<Vec<bool>>)
    ensures
        g@.len() == samples@.len(),
        forall|y: int| 0 <= y < samples@.len() ==> (#[trigger] g@[y])@.len() == samples@[y]@.len(),
        forall|x: int, y: int|
            0 <= y < samples@.len() && 0 <= x < samples@[y]@.len() ==> #[trigger] g@[y]@[x] == (samples@[y]@[x]
                > NOISE_THRESHOLD),
{
    let mut g: Vec<Vec<bool>> = Vec::new();
    let mut y: usize = 0;
    while y < samples.len()
        invariant
            y <= samples@.len(),
            g@.len() == y,
            forall|cy: int| 0 <= cy < y ==> (#[trigger] g@[cy])@.len() == samples@[cy]@.len(),
            forall|cx: int, cy: int|
                0 <= cy < y && 0 <= cx < samples@[cy]@.len() ==> #[trigger] g@[cy]@[cx] == (samples@[cy]@[cx]
                    > NOISE_THRESHOLD),
        decreases samples@.len() - y,
    {
        let src = &samples[y];
        let mut row: Vec<bool> = Vec::new();
        let mut x: usize = 0;
        while x < src.len()
            invariant
                x <= src@.len(),
                row@.len() == x,
                forall|cx: int| 0 <= cx < x ==> #[trigger] row@[cx] == (src@[cx] > NOISE_THRESHOLD),
            decreases src@.len() - x,
        {
            row.push(src[x] > NOISE_THRESHOLD);
            x = x + 1;
        }
        g.push(row);
        y = y + 1;
    }
    g
}

/// The cell where every generated world keeps its base: the grid's center.
pub open spec fn center(width: int, height: int) -> (usize, usize) {
    ((width / 2) as usize, (height / 2) as usize)
}

/// No position occurs twice in `ps`.
pub open spec fn distinct_sites(ps: Seq<(usize, usize)>) -> bool {
    forall|i: int, j: int| 0 <= i < ps.len() && 0 <= j < ps.len() && i != j ==> ps[i] != ps[j]
}

/// No position of `ps` occurs in `qs`.
pub open spec fn apart(ps: Seq<(usize, usize)>, qs: Seq<(usize, usize)>) -> bool {
    forall|i: int| 0 <= i < ps.len() ==> !qs.contains(#[trigger] ps[i])
}

/// A valid set of `RESOURCE_COUNT` sources of one kind: on the grid, distinct,
/// off the base and clear of the sources of the other kind.
pub open spec fn valid_sites(
    ps: Seq<(usize, usize)>,
    width: int,
    height: int,
    base: (usize, usize),
    rivals: Seq<(usize, usize)>,
) -> bool {
    &&& ps.len() == RESOURCE_COUNT
    &&& all_within(ps, width, height)
    &&& distinct_sites(ps)
    &&& !ps.contains(base)
    &&& apart(ps, rivals)
}

/// What a world generated on a `width` by `height` grid from the obstacle
/// layout `terrain` looks like: base at the center, obstacles as in `terrain`
/// except on the base, nothing revealed, and valid sources of both kinds.
pub open spec fn generated(w: World, width: int, height: int, terrain: Seq<Vec<bool>>) -> bool {
    &&& w.wf()
    &&& w.width == width
    &&& w.height == height
    &&& w.base == center(width, height)
    &&& forall|x: int, y: int|
        w.in_bounds(x, y) ==> #[trigger] w.obstacle_at(x, y) == (terrain[y]@[x] && (x, y) != (
            w.base.0 as int,
            w.base.1 as int,
        ))
    &&& forall|x: int, y: int| w.in_bounds(x, y) ==> !#[trigger] w.explored_at(x, y)
    &&& valid_sites(w.energy@, width, height, w.base, w.minerals@)
    &&& valid_sites(w.minerals@, width, height, w.base, w.energy@)
}

/// A generated world holds its base and `2 * RESOURCE_COUNT` sources on
/// distinct cells, so its grid has at least that many cells plus one.
proof fn lemma_room_needed(w: World, width: int, height: int, terrain: Seq<Vec<bool>>)
    requires
        generated(w, width, height, terrain),
    ensures
        width * height > 2 * RESOURCE_COUNT,
{
    let all = w.energy@ + w.minerals@;
    assert forall|i: int| 0 <= i < all.len() implies (#[trigger] all[i]).0 < width && all[i].1 < height && all[i] != w.base by {
        if i < w.energy@.len() {
            assert(all[i] == w.energy@[i]);
            assert(w.energy@.contains(w.energy@[i]));
        } else {
            assert(all[i] == w.minerals@[i - w.energy@.len()]);
            assert(w.minerals@.contains(w.minerals@[i - w.energy@.len()]));
        }
    }
    assert(all.no_duplicates()) by {
        assert forall|i: int, j: int| 0 <= i < all.len() && 0 <= j < all.len() && i != j implies all[i] != all[j] by {
            let n = w.energy@.len() as int;
            if i < n && j < n {
            } else if i >= n && j >= n {
                assert(w.minerals@[i - n] != w.minerals@[j - n]);
            } else if i < n {
                assert(!w.minerals@.contains(w.energy@[i]));
                assert(all[j] == w.minerals@[j - n]);
            } else {
                assert(!w.minerals@.contains(w.energy@[j]));
                assert(all[i] == w.minerals@[i - n]);
            }
        }
    }
    let idx = all.map_values(|p: (usize, usize)| cell_index(p, width));
    assert(idx.no_duplicates()) by {
        assert forall|i: int, j: int| 0 <= i < idx.len() && 0 <= j < idx.len() && i != j implies idx[i] != idx[j] by {
            if idx[i] == idx[j] {
                lemma_cell_index_injective(all[i], all[j], width);
            }
        }
    }
    idx.unique_seq_to_set();
    let b = cell_index(w.base, width);
    assert(!idx.to_set().contains(b)) by {
        if idx.to_set().contains(b) {
            let k = choose|k: int| 0 <= k < idx.len() && idx[k] == b;
            lemma_cell_index_injective(all[k], w.base, width);
        }
    }
    let cells = idx.to_set().insert(b);
    assert(cells.len() == 2 * RESOURCE_COUNT + 1);
    assert(cells.subset_of(set_int_range(0, width * height))) by {
        assert forall|v: int| cells.contains(v) implies set_int_range(0, width * height).contains(v) by {
            if v == b {
                lemma_cell_index_bounds(w.base, width, height);
            } else {
                let k = choose|k: int| 0 <= k < idx.len() && idx[k] == v;
                lemma_cell_index_bounds(all[k], width, height);
            }
        }
    }
    lemma_cell_index_bounds(w.base, width, height);
    lemma_int_range(0, width * height);
    lemma_len_subset(cells, set_int_range(0, width * height));
}

/// Whether `p` occurs in `ps`.
pub fn holds_site(ps: &Vec<(usize, usize)>, p: (usize, usize)) -> (r: bool)
    ensures
        r == ps@.contains(p),
{
    let mut i: usize = 0;
    while i < ps.len()
        invariant
            i <= ps@.len(),
            forall|j: int| 0 <= j < i ==> ps@[j] != p,
        decreases ps@.len() - i,
    {
        if ps[i].0 == p.0 && ps[i].1 == p.1 {
            assert(ps@[i as int] == p);
            return true;
        }
        i = i + 1;
    }
    false
}

/// The rejection test of resource placement: a drawn cell is kept when it is
/// not the base and holds no source of either kind yet.
pub fn accepts_site(
    p: (usize, usize),
    base: (usize, usize),
    placed: &Vec<(usize, usize)>,
    rivals: &Vec<(usize, usize)>,
) -> (r: bool)
    ensures
        r == (p != base && !placed@.contains(p) && !rivals@.contains(p)),
{
    !(p.0 == base.0 && p.1 == base.1) && !holds_site(placed, p) && !holds_site(rivals, p)
}

/// One draw of resource placement: `p` joins `placed` exactly when
/// [`accepts_site`] admits it. Returns whether it did.
pub fn consider_site(
    placed: &mut Vec<(usize, usize)>,
    p: (usize, usize),
    base: (usize, usize),
    rivals: &Vec<(usize, usize)>,
) -> (kept: bool)
    ensures
        kept == (p != base && !old(placed)@.contains(p) && !rivals@.contains(p)),
        final(placed)@ == (if kept {
            old(placed)@.push(p)
        } else {
            old(placed)@
        }),
{
    if accepts_site(p, base, placed, rivals) {
        placed.push(p);
        true
    } else {
        false
    }
}

/// Draws cells uniformly over the grid and keeps those that [`accepts_site`]
/// admits, until `RESOURCE_COUNT` are kept or `PLACEMENT_BUDGET` draws are spent.
pub fn place_sources(
    rng: &mut StdRng,
    width: usize,
    height: usize,
    base: (usize, usize),
    rivals: &Vec<(usize, usize)>,
) -> (r: Option<Vec<(usize, usize)>>)
    requires
        0 < width,
        0 < height,
    ensures
        r matches Some(ps) ==> valid_sites(ps@, width as int, height as int, base, rivals@),
{
    let mut placed: Vec<(usize, usize)> = Vec::new();
    let mut draws: usize = 0;
    while placed.len() < RESOURCE_COUNT && draws < PLACEMENT_BUDGET
        invariant
            0 < width,
            0 < height,
            placed@.len() <= RESOURCE_COUNT,
            all_within(placed@, width as int, height as int),
            distinct_sites(placed@),
            !placed@.contains(base),
            apart(placed@, rivals@),
        decreases PLACEMENT_BUDGET - draws,
    {
        let x = draw_below(rng, width);
        let y = draw_below(rng, height);
        draws = draws + 1;
        let ghost prev = placed@;
        if consider_site(&mut placed, (x, y), base, rivals) {
            proof {
                assert forall|i: int, j: int|
                    0 <= i < placed@.len() && 0 <= j < placed@.len() && i != j implies placed@[i] != placed@[j] by {
                    if i < prev.len() && j < prev.len() {
                        assert(prev[i] != prev[j]);
                    } else if i < prev.len() {
                        assert(prev.contains(prev[i]));
                    } else {
                        assert(prev.contains(prev[j]));
                    }
                }
                assert forall|i: int| 0 <= i < placed@.len() implies !rivals@.contains(#[trigger] placed@[i]) by {
                    if i < prev.len() {
                        assert(prev[i] == placed@[i]);
                    }
                }
                if placed@.contains(base) {
                    let k = choose|k: int| 0 <= k < placed@.len() && placed@[k] == base;
                    if k < prev.len() {
                        assert(prev.contains(base));
                    }
                }
            }
        }
    }
    if placed.len() < RESOURCE_COUNT {
        None
    } else {
        Some(placed)
    }
}

/// A row of `width` unrevealed cells.
fn blank_row(width: usize) -> (row: Vec<bool>)
    ensures
        row@.len() == width,
        forall|i: int| 0 <= i < width ==> !#[trigger] row@[i],
{
    let mut row: Vec<bool> = Vec::new();
    let mut x: usize = 0;
    while x < width
        invariant
            x <= width,
            row@.len() == x,
            forall|i: int| 0 <= i < x ==> !#[trigger] row@[i],
        decreases width - x,
    {
        row.push(false);
        x = x + 1;
    }
    row
}

/// Generates a world on a `width` by `height` grid whose obstacles follow the
/// layout `terrain` (see [`border_terrain`] and [`threshold_terrain`]); the
/// base at the center is always kept clear. The energy sources, then the
/// mineral sources, are placed by rejection sampling from a generator seeded
/// with `seed`; a kind that cannot be placed within the budget is an error.
pub fn generate_map(width: usize, height: usize, terrain: &Vec<Vec<bool>>, seed: u64) -> (r: Result<
    World,
    GenerationError,
>)
    requires
        0 < width,
        0 < height,
        width + height <= usize::MAX,
        grid_shaped(terrain@, width as int, height as int),
    ensures
        r matches Ok(w) ==> generated(w, width as int, height as int, terrain@),
        width * height <= 2 * RESOURCE_COUNT ==> r is Err,
{
    let base: (usize, usize) = (width / 2, height / 2);
    let mut obstacles: Vec<Vec<bool>> = Vec::new();
    let mut explored: Vec<Vec<bool>> = Vec::new();
    let mut y: usize = 0;
    while y < height
        invariant
            y <= height,
            grid_shaped(terrain@, width as int, height as int),
            base == center(width as int, height as int),
            grid_shaped(obstacles@, width as int, y as int),
            grid_shaped(explored@, width as int, y as int),
            forall|cx: int, cy: int|
                0 <= cx < width && 0 <= cy < y ==> #[trigger] obstacles@[cy]@[cx] == (terrain@[cy]@[cx] && (cx, cy)
                    != (base.0 as int, base.1 as int)),
            forall|cx: int, cy: int| 0 <= cx < width && 0 <= cy < y ==> !#[trigger] explored@[cy]@[cx],
        decreases height - y,
    {
        let src = &terrain[y];
        let mut row: Vec<bool> = Vec::new();
        let mut x: usize = 0;
        while x < width
            invariant
                x <= width,
                y < height,
                src@.len() == width,
                row@.len() == x,
                forall|cx: int| 0 <= cx < x ==> #[trigger] row@[cx] == (src@[cx] && (cx, y as int) != (
                    base.0 as int,
                    base.1 as int,
                )),
            decreases width - x,
        {
            row.push(src[x] && !(x == base.0 && y == base.1));
            x = x + 1;
        }
        obstacles.push(row);
        explored.push(blank_row(width));
        y = y + 1;
    }
    let mut rng = seeded_rng(seed);
    let none: Vec<(usize, usize)> = Vec::new();
    let energy = match place_sources(&mut rng, width, height, base, &none) {
        Some(ps) => ps,
        None => {
            return Err(GenerationError::EnergyPlacement);
        },
    };
    let minerals = match place_sources(&mut rng, width, height, base, &energy) {
        Some(ps) => ps,
        None => {
            return Err(GenerationError::MineralPlacement);
        },
    };
    let w = World { width, height, obstacles, energy, minerals, base, explored };
    proof {
        assert forall|i: int| 0 <= i < w.energy@.len() implies !w.minerals@.contains(#[trigger] w.energy@[i]) by {
            if w.minerals@.contains(w.energy@[i]) {
                let k = choose|k: int| 0 <= k < w.minerals@.len() && w.minerals@[k] == w.energy@[i];
                assert(w.energy@.contains(w.minerals@[k]));
            }
        }
    }
    proof {
        lemma_room_needed(w, width as int, height as int, terrain@);
    }
    Ok(w)
}

/// Generation determinism: the obstacle grid of a generated world depends on
/// the grid size and the obstacle layout alone, whatever the placement seed.
pub proof fn lemma_generation_deterministic(
    a: World,
    b: World,
    width: int,
    height: int,
    terrain: Seq<Vec<bool>>,
)
    requires
        generated(a, width, height, terrain),
        generated(b, width, height, terrain),
    ensures
        a.width == b.width,
        a.height == b.height,
        a.base == b.base,
        forall|x: int, y: int| a.in_bounds(x, y) ==> #[trigger] a.obstacle_at(x, y) == b.obstacle_at(x, y),
{
    assert forall|x: int, y: int| a.in_bounds(x, y) implies #[trigger] a.obstacle_at(x, y) == b.obstacle_at(x, y) by {
        assert(b.in_bounds(x, y));
        assert(a.obstacle_at(x, y) == (terrain[y]@[x] && (x, y) != (a.base.0 as int, a.base.1 as int)));
        assert(b.obstacle_at(x, y) == (terrain[y]@[x] && (x, y) != (b.base.0 as int, b.base.1 as int)));
    }
}

} // verus!

//! Steps between neighbouring cells: which are allowed, and what they cost.

use crate::aspect::Aspect;
use crate::sqrt::{floor_sqrt, integer_sqrt, lemma_floor_sqrt_is};
use crate::terrain::{Terrain, TerrainView};
use vstd::prelude::*;

verus! {

/// The steepest climb allowed where the caller names none: one in one.
pub const DEFAULT_MAX_GRADIENT: i64 = 1000000;

/// The steepness above which excluded sectors count where the caller names
/// none.
pub const DEFAULT_ASPECT_GRADIENT_THRESHOLD: i64 = 0;

/// How far either side of an excluded sector a cell's azimuth is still
/// refused: 2.5 degrees.
pub const PATH_TOLERANCE: i32 = 2500;

/// What a walker accepts.
#[derive(Debug)]
pub struct PathRules {
    /// A step must climb less steeply than this, in millionths.
    pub max_gradient: i64,
    /// Sectors that must not be entered.
    pub excluded_aspects: Vec<Aspect>,
    /// The sectors count only on cells steeper than this, in millionths.
    pub aspect_gradient_threshold: i64,
}

/// What a set of rules stands for.
pub struct RulesView {
    pub max_gradient: int,
    pub excluded_aspects: Seq<Aspect>,
    pub aspect_gradient_threshold: int,
}

impl View for PathRules {
    type V = RulesView;

    open spec fn view(&self) -> RulesView {
        RulesView {
            max_gradient: self.max_gradient as int,
            excluded_aspects: self.excluded_aspects@,
            aspect_gradient_threshold: self.aspect_gradient_threshold as int,
        }
    }
}

/// The column offset of move `k`, in the order in which a cell's
/// neighbours are tried: S, E, N, W, SE, NE, NW, SW.
pub open spec fn move_dx(k: int) -> int {
    if k == 1 || k == 4 || k == 5 {
        1
    } else if k == 3 || k == 6 || k == 7 {
        -1
    } else {
        0
    }
}

/// The row offset of move `k`.
pub open spec fn move_dy(k: int) -> int {
    if k == 0 || k == 4 || k == 7 {
        1
    } else if k == 2 || k == 5 || k == 6 {
        -1
    } else {
        0
    }
}

/// The squared length of move `k`, in square metres; a cell is 10 m wide.
pub open spec fn run_squared(k: int) -> int {
    if k < 4 {
        100
    } else {
        200
    }
}

/// Whether the cell in column `x` and row `y` bars the way: it is steeper
/// than the threshold and faces an excluded sector to within 2.5 degrees.
pub open spec fn blocked(terrain: TerrainView, rules: RulesView, x: int, y: int) -> bool {
    terrain.gradients.at(y, x) > rules.aspect_gradient_threshold && Aspect::any_covers(
        rules.excluded_aspects,
        terrain.azimuths.at(y, x) as int,
        PATH_TOLERANCE as int,
    )
}

/// Whether a step that rises `rise` millimetres over a length whose square
/// is `run_squared` square metres climbs less steeply than `max_gradient`
/// millionths: whether `1000 * rise` is less than `max_gradient` times the
/// length, decided on the squares.
pub open spec fn gentle(rise: int, run_squared: int, max_gradient: int) -> bool {
    let scaled = 1000 * rise;
    if max_gradient >= 0 {
        scaled < 0 || scaled * scaled < max_gradient * max_gradient * run_squared
    } else {
        scaled < 0 && scaled * scaled > max_gradient * max_gradient * run_squared
    }
}

/// The cost of a step: its length times a multiplier, rounded down. The
/// multiplier is 20 times the slope, held between 1 and 20. With the rise in
/// millimetres the product is a fiftieth of the rise, held between the
/// length and 20 times the length.
pub open spec fn step_cost(rise: int, run_squared: int) -> int {
    let least = floor_sqrt(run_squared);
    let most = floor_sqrt(400 * run_squared);
    let graded = rise / 50;
    if graded < least {
        least
    } else if graded > most {
        most
    } else {
        graded
    }
}

/// The distance between two cells in metres, rounded down.
pub open spec fn distance_between(a: (usize, usize), b: (usize, usize)) -> int {
    floor_sqrt(100 * ((a.0 - b.0) * (a.0 - b.0) + (a.1 - b.1) * (a.1 - b.1)))
}

/// The neighbours of the cell in column `x` and row `y` that a search may
/// go to, from move `k` on, each with the cost of the step. The moves are
/// tried in order; the first neighbour that bars the way ends the list, and
/// a neighbour that is too steep a climb is left out.
pub open spec fn successors_from(
    terrain: TerrainView,
    rules: RulesView,
    x: int,
    y: int,
    k: int,
) -> Seq<((usize, usize), i32)>
    decreases 8 - k,
{
    if k < 0 || k >= 8 {
        Seq::empty()
    } else {
        let nx = x + move_dx(k);
        let ny = y + move_dy(k);
        let rest = successors_from(terrain, rules, x, y, k + 1);
        if !terrain.has(ny, nx) {
            rest
        } else if blocked(terrain, rules, nx, ny) {
            Seq::empty()
        } else {
            let rise = terrain.elevations.at(ny, nx) - terrain.elevations.at(y, x);
            if gentle(rise, run_squared(k), rules.max_gradient) {
                seq![((nx as usize, ny as usize), step_cost(rise, run_squared(k)) as i32)] + rest
            } else {
                rest
            }
        }
    }
}

/// The cost of the first entry of `list` from index `k` on that leads to
/// `to`, if there is one.
pub open spec fn find_step(list: Seq<((usize, usize), i32)>, to: (usize, usize), k: int) -> Option<
    i32,
>
    decreases list.len() - k,
{
    if k < 0 || k >= list.len() {
        None
    } else if list[k].0 == to {
        Some(list[k].1)
    } else {
        find_step(list, to, k + 1)
    }
}

/// The cost of the step from `from` to `to`, if a search may take it.
pub open spec fn step_to(
    terrain: TerrainView,
    rules: RulesView,
    from: (usize, usize),
    to: (usize, usize),
) -> Option<i32> {
    find_step(successors_from(terrain, rules, from.0 as int, from.1 as int, 0), to, 0)
}

/// The cost of the first `steps` steps of `nodes`; a step that a search may
/// not take counts nothing.
pub open spec fn route_cost(
    terrain: TerrainView,
    rules: RulesView,
    nodes: Seq<(usize, usize)>,
    steps: nat,
) -> int
    decreases steps,
{
    if steps == 0 {
        0
    } else {
        route_cost(terrain, rules, nodes, (steps - 1) as nat) + match step_to(
            terrain,
            rules,
            nodes[steps - 1],
            nodes[steps as int],
        ) {
            Some(cost) => cost as int,
            None => 0,
        }
    }
}

/// Whether `nodes` is a route from `start` to `end`: it begins and ends
/// there, stays on the grid, comes by no cell twice, and each of its steps
/// is one a search may take.
pub open spec fn is_route(
    terrain: TerrainView,
    rules: RulesView,
    start: (usize, usize),
    end: (usize, usize),
    nodes: Seq<(usize, usize)>,
) -> bool {
    &&& nodes.len() >= 1
    &&& nodes[0] == start
    &&& nodes[nodes.len() - 1] == end
    &&& forall|i: int|
        0 <= i < nodes.len() ==> terrain.has((#[trigger] nodes[i]).1 as int, nodes[i].0 as int)
    &&& nodes.no_duplicates()
    &&& forall|i: int|
        0 <= i < nodes.len() - 1 ==> (#[trigger] step_to(terrain, rules, nodes[i], nodes[i + 1])) is Some
}

/// The rounded-down lengths of a straight and of a diagonal step, and of
/// 20 times each.
pub proof fn lemma_step_lengths()
    ensures
        floor_sqrt(100) == 10,
        floor_sqrt(200) == 14,
        floor_sqrt(40000) == 200,
        floor_sqrt(80000) == 282,
{
    lemma_floor_sqrt_is(100, 10);
    lemma_floor_sqrt_is(200, 14);
    lemma_floor_sqrt_is(40000, 200);
    lemma_floor_sqrt_is(80000, 282);
}

/// A step costs at least its rounded-down length and at most 20 times its
/// length.
pub proof fn lemma_step_cost_bounds(rise: int, k: int)
    ensures
        10 <= step_cost(rise, run_squared(k)) <= 282,
{
    lemma_step_lengths();
}

/// The distance between two cells in metres, rounded down.
pub fn distance(a: (usize, usize), b: (usize, usize)) -> (metres: u64)
    requires
        a.0 <= 0xffff_ffff && a.1 <= 0xffff_ffff,
        b.0 <= 0xffff_ffff && b.1 <= 0xffff_ffff,
    ensures
        metres == distance_between(a, b),
        metres <= 10 * (if a.0 >= b.0 {
            a.0 - b.0
        } else {
            b.0 - a.0
        } + if a.1 >= b.1 {
            a.1 - b.1
        } else {
            b.1 - a.1
        }),
{
    let dx: u128 = if a.0 >= b.0 {
        (a.0 - b.0) as u128
    } else {
        (b.0 - a.0) as u128
    };
    let dy: u128 = if a.1 >= b.1 {
        (a.1 - b.1) as u128
    } else {
        (b.1 - a.1) as u128
    };
    assert(dx * dx == (a.0 - b.0) * (a.0 - b.0) && dx * dx <= 0xffff_ffff * 0xffff_ffff)
        by (nonlinear_arith)
        requires
            dx == a.0 - b.0 || dx == b.0 - a.0,
            0 <= dx <= 0xffff_ffff,
    ;
    assert(dy * dy == (a.1 - b.1) * (a.1 - b.1) && dy * dy <= 0xffff_ffff * 0xffff_ffff)
        by (nonlinear_arith)
        requires
            dy == a.1 - b.1 || dy == b.1 - a.1,
            0 <= dy <= 0xffff_ffff,
    ;
    let squares: u128 = 100 * (dx * dx + dy * dy);
    let metres: u64 = integer_sqrt(squares);
    assert(metres <= 10 * (dx + dy)) by (nonlinear_arith)
        requires
            metres * metres <= squares,
            squares == 100 * (dx * dx + dy * dy),
            0 <= dx,
            0 <= dy,
            0 <= metres,
    ;
    metres
}

/// The cost of a step that rises `rise` millimetres, straight or diagonal.
pub fn cost_fn(rise: i64, diagonal: bool) -> (cost: i32)
    ensures
        cost == step_cost(
            rise as int,
            if diagonal {
                200
            } else {
                100
            },
        ),
        10 <= cost <= 282,
{
    proof {
        lemma_step_lengths();
    }
    let least: i64 = if diagonal {
        14
    } else {
        10
    };
    let most: i64 = if diagonal {
        282
    } else {
        200
    };
    if rise < 50 * least {
        least as i32
    } else {
        let graded: i64 = rise / 50;
        if graded > most {
            most as i32
        } else {
            graded as i32
        }
    }
}

/// Tests whether a step climbs less steeply than `max_gradient`.
pub fn is_gentle(rise: i64, diagonal: bool, max_gradient: i64) -> (yes: bool)
    requires
        -0x1_0000_0000 <= rise <= 0x1_0000_0000,
    ensures
        yes == gentle(
            rise as int,
            if diagonal {
                200
            } else {
                100
            },
            max_gradient as int,
        ),
{
    let scaled: i128 = 1000 * (rise as i128);
    let run: i128 = if diagonal {
        200
    } else {
        100
    };
    let limit: i128 = max_gradient as i128;
    assert(0 <= scaled * scaled <= 4294967296000 * 4294967296000) by (nonlinear_arith)
        requires
            -4294967296000 <= scaled <= 4294967296000,
    ;
    if limit > 4294967296000 {
        assert(scaled * scaled < limit * limit * run) by (nonlinear_arith)
            requires
                scaled * scaled <= 4294967296000 * 4294967296000,
                limit > 4294967296000,
                run >= 100,
        ;
        true
    } else if limit < -4294967296000 {
        assert(scaled * scaled < limit * limit * run) by (nonlinear_arith)
            requires
                scaled * scaled <= 4294967296000 * 4294967296000,
                limit < -4294967296000,
                run >= 100,
        ;
        false
    } else {
        assert(0 <= limit * limit <= 4294967296000 * 4294967296000) by (nonlinear_arith)
            requires
                -4294967296000 <= limit <= 4294967296000,
        ;
        assert(limit * limit * run <= 4294967296000 * 4294967296000 * 200) by (nonlinear_arith)
            requires
                0 <= limit * limit <= 4294967296000 * 4294967296000,
                0 <= run <= 200,
        ;
        assert(0 <= limit * limit * run) by (nonlinear_arith)
            requires
                0 <= limit * limit,
                0 <= run,
        ;
        if limit >= 0 {
            scaled < 0 || scaled * scaled < limit * limit * run
        } else {
            scaled < 0 && scaled * scaled > limit * limit * run
        }
    }
}

/// Tests whether a cell bars the way.
pub fn is_blocked(terrain: &Terrain, rules: &PathRules, x: usize, y: usize) -> (yes: bool)
    requires
        terrain.wf(),
        terrain.has(y as int, x as int),
    ensures
        yes == blocked(terrain@, rules@, x as int, y as int),
{
    if terrain.gradients.get(y, x) > rules.aspect_gradient_threshold {
        Aspect::any_contains(&rules.excluded_aspects, terrain.azimuths.get(y, x), PATH_TOLERANCE)
    } else {
        false
    }
}

/// Moves a coordinate by one cell, if that stays below `limit`.
fn shifted(value: usize, by: i8, limit: usize) -> (moved: Option<usize>)
    requires
        -1 <= by <= 1,
    ensures
        moved == if 0 <= value + by < limit {
            Some((value + by) as usize)
        } else {
            None
        },
{
    if by == 1 {
        if value < usize::MAX && value + 1 < limit {
            Some(value + 1)
        } else {
            None
        }
    } else if by == -1 {
        if value >= 1 && value - 1 < limit {
            Some(value - 1)
        } else {
            None
        }
    } else if value < limit {
        Some(value)
    } else {
        None
    }
}

/// The offsets of move `k`.
fn move_offsets(k: u8) -> (by: (i8, i8))
    requires
        k < 8,
    ensures
        by.0 == move_dx(k as int),
        by.1 == move_dy(k as int),
{
    let dx: i8 = if k == 1 || k == 4 || k == 5 {
        1
    } else if k == 3 || k == 6 || k == 7 {
        -1
    } else {
        0
    };
    let dy: i8 = if k == 0 || k == 4 || k == 7 {
        1
    } else if k == 2 || k == 5 || k == 6 {
        -1
    } else {
        0
    };
    (dx, dy)
}

/// The neighbours of a cell that a search may go to, each with the cost of
/// the step, in the order of the moves.
pub fn successors(terrain: &Terrain, rules: &PathRules, x: usize, y: usize) -> (list: Vec<
    ((usize, usize), i32),
>)
    requires
        terrain.wf(),
        terrain.has(y as int, x as int),
    ensures
        list@ == successors_from(terrain@, rules@, x as int, y as int, 0),
{
    let mut list: Vec<((usize, usize), i32)> = Vec::new();
    let here: i64 = terrain.elevations.get(y, x) as i64;
    let mut k: u8 = 0;
    let mut barred: bool = false;
    while k < 8 && !barred
        invariant
            k <= 8,
            terrain.wf(),
            terrain.has(y as int, x as int),
            here == terrain@.elevations.at(y as int, x as int),
            !barred ==> list@ + successors_from(terrain@, rules@, x as int, y as int, k as int)
                == successors_from(terrain@, rules@, x as int, y as int, 0),
            barred ==> list@ == successors_from(terrain@, rules@, x as int, y as int, 0),
        decreases 8 - k + if barred { 0int } else { 1int },
    {
        let (dx, dy) = move_offsets(k);
        let ghost rest = successors_from(terrain@, rules@, x as int, y as int, k + 1);
        match (shifted(x, dx, terrain.elevations.width), shifted(y, dy, terrain.elevations.height)) {
            (Some(nx), Some(ny)) => {
                if is_blocked(terrain, rules, nx, ny) {
                    barred = true;
                    assert(list@ + Seq::<((usize, usize), i32)>::empty() =~= list@);
                } else {
                    let rise: i64 = terrain.elevations.get(ny, nx) as i64 - here;
                    if is_gentle(rise, k >= 4, rules.max_gradient) {
                        let ghost before = list@;
                        let cost: i32 = cost_fn(rise, k >= 4);
                        list.push(((nx, ny), cost));
                        assert(list@ + rest =~= before + (seq![((nx, ny), cost)] + rest));
                    }
                    k += 1;
                }
            },
            _ => {
                k += 1;
            },
        }
    }
    proof {
        if !barred {
            assert(list@ + Seq::<((usize, usize), i32)>::empty() =~= list@);
        }
    }
    list
}

/// What it means that a search may step from `from` to `to`: `to` is a
/// neighbour on the grid that does not bar the way, the step climbs less
/// steeply than the rules allow, no neighbour tried before `to` bars the
/// way, and the cost is that of the step.
pub open spec fn is_step(
    terrain: TerrainView,
    rules: RulesView,
    from: (usize, usize),
    to: (usize, usize),
    cost: int,
) -> bool {
    exists|k: int|
        {
            &&& 0 <= k < 8
            &&& to.0 == from.0 + move_dx(k)
            &&& to.1 == from.1 + move_dy(k)
            &&& terrain.has(to.1 as int, to.0 as int)
            &&& !blocked(terrain, rules, to.0 as int, to.1 as int)
            &&& gentle(
                terrain.elevations.at(to.1 as int, to.0 as int) - terrain.elevations.at(
                    from.1 as int,
                    from.0 as int,
                ),
                #[trigger] run_squared(k),
                rules.max_gradient,
            )
            &&& cost == step_cost(
                terrain.elevations.at(to.1 as int, to.0 as int) - terrain.elevations.at(
                    from.1 as int,
                    from.0 as int,
                ),
                run_squared(k),
            )
            &&& forall|j: int|
                0 <= j < k && terrain.has(from.1 + move_dy(j), from.0 + move_dx(j)) ==> !blocked(
                    terrain,
                    rules,
                    from.0 + #[trigger] move_dx(j),
                    from.1 + move_dy(j),
                )
        }
}

/// Every entry of the list of successors from move `k` on is a step that a
/// search may take, given that no neighbour before move `k` bars the way.
pub proof fn lemma_successors_are_steps(
    terrain: TerrainView,
    rules: RulesView,
    from: (usize, usize),
    k: int,
    i: int,
)
    requires
        0 <= k <= 8,
        terrain.elevations.width <= usize::MAX && terrain.elevations.height <= usize::MAX,
        forall|j: int|
            0 <= j < k && terrain.has(from.1 + move_dy(j), from.0 + move_dx(j)) ==> !blocked(
                terrain,
                rules,
                from.0 + #[trigger] move_dx(j),
                from.1 + move_dy(j),
            ),
        0 <= i < successors_from(terrain, rules, from.0 as int, from.1 as int, k).len(),
    ensures
        is_step(
            terrain,
            rules,
            from,
            successors_from(terrain, rules, from.0 as int, from.1 as int, k)[i].0,
            successors_from(terrain, rules, from.0 as int, from.1 as int, k)[i].1 as int,
        ),
    decreases 8 - k,
{
    let x = from.0 as int;
    let y = from.1 as int;
    let nx = x + move_dx(k);
    let ny = y + move_dy(k);
    if k < 8 {
        if !terrain.has(ny, nx) {
            lemma_successors_are_steps(terrain, rules, from, k + 1, i);
        } else if !blocked(terrain, rules, nx, ny) {
            let rise = terrain.elevations.at(ny, nx) - terrain.elevations.at(y, x);
            if gentle(rise, run_squared(k), rules.max_gradient) {
                if i == 0 {
                    lemma_step_cost_bounds(rise, k);
                    let to = (nx as usize, ny as usize);
                    assert(to.0 == from.0 + move_dx(k) && to.1 == from.1 + move_dy(k));
                } else {
                    lemma_successors_are_steps(terrain, rules, from, k + 1, i - 1);
                }
            } else {
                lemma_successors_are_steps(terrain, rules, from, k + 1, i);
            }
        }
    }
}

/// What `find_step` finds is the cost of an entry of the list.
pub proof fn lemma_find_step(list: Seq<((usize, usize), i32)>, to: (usize, usize), k: int)
    requires
        0 <= k,
        find_step(list, to, k) is Some,
    ensures
        exists|i: int| k <= i < list.len() && #[trigger] list[i] == (to, find_step(list, to, k)->0),
    decreases list.len() - k,
{
    if list[k].0 == to {
        assert(list[k] == (to, find_step(list, to, k)->0));
    } else {
        lemma_find_step(list, to, k + 1);
    }
}

/// A step that a search may take goes to a neighbour on the grid that does
/// not bar the way, climbs less steeply than the rules allow, and costs
/// between 10 and 282.
pub proof fn lemma_step_to_is_step(
    terrain: TerrainView,
    rules: RulesView,
    from: (usize, usize),
    to: (usize, usize),
)
    requires
        terrain.elevations.width <= usize::MAX && terrain.elevations.height <= usize::MAX,
        step_to(terrain, rules, from, to) is Some,
    ensures
        is_step(terrain, rules, from, to, step_to(terrain, rules, from, to)->0 as int),
        10 <= step_to(terrain, rules, from, to)->0 <= 282,
{
    let list = successors_from(terrain, rules, from.0 as int, from.1 as int, 0);
    lemma_find_step(list, to, 0);
    let i = choose|i: int| 0 <= i < list.len() && #[trigger] list[i] == (to, find_step(list, to, 0)->0);
    lemma_successors_are_steps(terrain, rules, from, 0, i);
    let cost = step_to(terrain, rules, from, to)->0 as int;
    let k = choose|k: int|
        {
            &&& 0 <= k < 8
            &&& to.0 == from.0 + move_dx(k)
            &&& to.1 == from.1 + move_dy(k)
            &&& terrain.has(to.1 as int, to.0 as int)
            &&& !blocked(terrain, rules, to.0 as int, to.1 as int)
            &&& gentle(
                terrain.elevations.at(to.1 as int, to.0 as int) - terrain.elevations.at(
                    from.1 as int,
                    from.0 as int,
                ),
                #[trigger] run_squared(k),
                rules.max_gradient,
            )
            &&& cost == step_cost(
                terrain.elevations.at(to.1 as int, to.0 as int) - terrain.elevations.at(
                    from.1 as int,
                    from.0 as int,
                ),
                run_squared(k),
            )
            &&& forall|j: int|
                0 <= j < k && terrain.has(from.1 + move_dy(j), from.0 + move_dx(j)) ==> !blocked(
                    terrain,
                    rules,
                    from.0 + #[trigger] move_dx(j),
                    from.1 + move_dy(j),
                )
        };
    lemma_step_cost_bounds(
        terrain.elevations.at(to.1 as int, to.0 as int) - terrain.elevations.at(
            from.1 as int,
            from.0 as int,
        ),
        k,
    );
}

} // verus!

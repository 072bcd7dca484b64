//! The search for a route between two cells.

use crate::aspect::Aspect;
use crate::raster::Raster;
use crate::route::{
    blocked, distance, distance_between, find_step, is_route, is_step, lemma_step_to_is_step,
    route_cost, step_to, successors, successors_from, PathRules, RulesView,
    DEFAULT_ASPECT_GRADIENT_THRESHOLD, DEFAULT_MAX_GRADIENT,
};
use crate::terrain::{Terrain, TerrainView};
use crate::tracker::{batch_due, key_of, ExplorationTracker, MAX_SIDE};
use pathfinding::directed::fringe::fringe;
use std::collections::HashSet;
use vstd::prelude::*;

verus! {

broadcast use vstd::std_specs::hash::group_hash_axioms;

/// The number of visits that make a batch where the caller names none.
pub const DEFAULT_BATCH_SIZE: usize = 10000;

/// A route: its cells as (column, row) from start to end, and the sum of
/// the costs of its steps.
#[derive(Debug)]
pub struct Path {
    pub nodes: Vec<(usize, usize)>,
    pub cost: i64,
}

/// Why no route was returned.
#[derive(Clone, Copy, Debug, PartialEq, Eq, Structural)]
pub enum PathError {
    /// The three grids are not complete or not of one shape.
    ShapeMismatch,
    /// The start is no cell of the grid.
    StartOutside,
    /// The end is no cell of the grid.
    EndOutside,
    /// The grid has more than 2^32 rows or more than 2^32 columns.
    TooLarge,
    /// The search ran out of cells to try: no path found.
    NoPath,
    /// The search returned something that is no route.
    Broken,
}

impl PathError {
    /// What the error says.
    pub open spec fn message_of(self) -> Seq<char> {
        match self {
            PathError::ShapeMismatch => "Rasters differ in shape"@,
            PathError::StartOutside => "Start outside the raster"@,
            PathError::EndOutside => "End outside the raster"@,
            PathError::TooLarge => "Raster too large"@,
            PathError::NoPath => "No path found"@,
            PathError::Broken => "Search returned no route"@,
        }
    }

    /// The error in words.
    pub fn message(&self) -> (message: &'static str)
        ensures
            message@ == self.message_of(),
    {
        match self {
            PathError::ShapeMismatch => "Rasters differ in shape",
            PathError::StartOutside => "Start outside the raster",
            PathError::EndOutside => "End outside the raster",
            PathError::TooLarge => "Raster too large",
            PathError::NoPath => "No path found",
            PathError::Broken => "Search returned no route",
        }
    }
}

/// What the search algorithm returns for a terrain, rules, a start and an
/// end: a list of cells with a cost, or nothing.
pub uninterp spec fn fringe_result(
    terrain: TerrainView,
    rules: RulesView,
    start: (usize, usize),
    end: (usize, usize),
) -> Option<(Seq<(usize, usize)>, i128)>;

/// What a returned list of cells and cost stand for.
pub open spec fn found_view(found: Option<(Vec<(usize, usize)>, i128)>) -> Option<
    (Seq<(usize, usize)>, i128),
> {
    match found {
        Some(pair) => Some((pair.0@, pair.1)),
        None => None,
    }
}

/// The cells of what a search returned; none where it returned nothing.
pub open spec fn listed(found: Option<(Seq<(usize, usize)>, i128)>) -> Seq<(usize, usize)> {
    match found {
        Some(pair) => pair.0,
        None => Seq::empty(),
    }
}

/// Whether `nodes` is a route from `start` to `end` whose cost fits the
/// cost's range.
pub open spec fn acceptable(
    terrain: TerrainView,
    rules: RulesView,
    start: (usize, usize),
    end: (usize, usize),
    nodes: Seq<(usize, usize)>,
) -> bool {
    is_route(terrain, rules, start, end, nodes) && route_cost(
        terrain,
        rules,
        nodes,
        (nodes.len() - 1) as nat,
    ) <= i64::MAX
}

/// Whether `result` is what follows from `found`: no path where nothing was
/// found, the list of cells with the sum of its steps' costs where it is an
/// acceptable route, and a broken search otherwise.
pub open spec fn is_outcome(
    terrain: TerrainView,
    rules: RulesView,
    start: (usize, usize),
    end: (usize, usize),
    found: Option<(Seq<(usize, usize)>, i128)>,
    result: Result<Path, PathError>,
) -> bool {
    match found {
        None => result == Err::<Path, PathError>(PathError::NoPath),
        Some(pair) => if acceptable(terrain, rules, start, end, pair.0) {
            &&& result is Ok
            &&& result->Ok_0.nodes@ == pair.0
            &&& result->Ok_0.cost == route_cost(
                terrain,
                rules,
                pair.0,
                (pair.0.len() - 1) as nat,
            )
        } else {
            result == Err::<Path, PathError>(PathError::Broken)
        },
    }
}

/// An estimate of the cost from `node` to `end`: their distance in metres,
/// rounded down.
pub fn heuristic(node: (usize, usize), end: (usize, usize)) -> (estimate: i128)
    requires
        node.0 < MAX_SIDE && node.1 < MAX_SIDE,
        end.0 < MAX_SIDE && end.1 < MAX_SIDE,
    ensures
        estimate == distance_between(node, end),
        0 <= estimate <= 20 * MAX_SIDE,
{
    let metres: u64 = distance(node, end);
    metres as i128
}

/// A list of successors with its costs in the range in which the search
/// adds them up.
pub open spec fn widened(list: Seq<((usize, usize), i32)>) -> Seq<((usize, usize), i128)> {
    Seq::new(list.len(), |k: int| (list[k].0, list[k].1 as i128))
}

/// A number that stands for one cell and no other.
pub open spec fn node_key(node: (usize, usize)) -> int {
    node.1 * 0x1_0000_0000_0000_0000 + node.0
}

/// Tests whether the search has arrived.
pub fn reached(node: (usize, usize), end: (usize, usize)) -> (yes: bool)
    ensures
        yes == (node == end),
{
    node.0 == end.0 && node.1 == end.1
}

/// Visits a cell: records the visit, hands the observer a batch where one
/// is due, and returns the cells to go to next. `growth` gives, for a number
/// of visits, the growth of the batch size in millionths; it is asked once,
/// for the number of visits that this one brings.
pub fn expand<F: Fn(Vec<(usize, usize)>), G: Fn(usize) -> u64>(
    terrain: &Terrain,
    rules: &PathRules,
    node: (usize, usize),
    tracker: &mut ExplorationTracker,
    observer: &Option<F>,
    growth: &G,
) -> (list: Vec<((usize, usize), i128)>)
    requires
        terrain.wf(),
        terrain.has(node.1 as int, node.0 as int),
        old(tracker).wf(),
        old(tracker).width == terrain.elevations.width,
        old(tracker).height == terrain.elevations.height,
        observer is Some ==> forall|batch: Vec<(usize, usize)>| observer->0.requires((batch,)),
        forall|total: usize| growth.requires((total,)),
    ensures
        list@ == widened(successors_from(terrain@, rules@, node.0 as int, node.1 as int, 0)),
        final(tracker).wf(),
        final(tracker).width == old(tracker).width,
        final(tracker).height == old(tracker).height,
        final(tracker).enabled == old(tracker).enabled,
        final(tracker).base_batch_size == old(tracker).base_batch_size,
        final(tracker).explored@ == if old(tracker).enabled {
            old(tracker).explored@.insert(key_of(node.0 as int, node.1 as int) as u64)
        } else {
            old(tracker).explored@
        },
        final(tracker).total_explored == if old(tracker).enabled && old(tracker).total_explored
            < usize::MAX {
            old(tracker).total_explored + 1
        } else {
            old(tracker).total_explored as int
        },
        !old(tracker).enabled ==> final(tracker).batch_counter == old(tracker).batch_counter,
        old(tracker).enabled ==> exists|given: u64|
            growth.ensures((final(tracker).total_explored,), given) && final(tracker).batch_counter
                == if #[trigger] batch_due(
                old(tracker).batch_counter as int,
                final(tracker).base_batch_size as int,
                given as int,
            ) {
                0
            } else {
                old(tracker).batch_counter + 1
            },
{
    if tracker.enabled {
        let visits: usize = if tracker.total_explored < usize::MAX {
            tracker.total_explored + 1
        } else {
            usize::MAX
        };
        let given: u64 = growth(visits);
        let due: Option<Vec<(usize, usize)>> = tracker.add_node(node.0, node.1, given);
        match (due, observer) {
            (Some(batch), Some(emit)) => {
                emit(batch);
            },
            _ => {},
        }
    }
    let list = successors(terrain, rules, node.0, node.1);
    let mut wide: Vec<((usize, usize), i128)> = Vec::new();
    let mut k: usize = 0;
    while k < list.len()
        invariant
            k <= list.len(),
            wide@.len() == k,
            forall|j: int| 0 <= j < k ==> wide@[j] == (list@[j].0, list@[j].1 as i128),
        decreases list.len() - k,
    {
        wide.push((list[k].0, list[k].1 as i128));
        k += 1;
    }
    assert(wide@ =~= widened(list@));
    wide
}

/// Runs `pathfinding::directed::fringe::fringe` from `start`, with `expand`
/// for the successors, `heuristic` for the estimate and `reached` for the
/// goal.
///
/// Nothing here is proved. The contract claims one thing of the search:
/// that what it returns is owed to the terrain, the rules and the two cells
/// alone, whatever the tracker holds and the observer and the growth do. It
/// does not claim that the list returned is a route; `conclude_search`
/// checks that.
///
/// The search adds a step's cost to the cost of a route without repeats
/// that leads to the step, and an estimate to that. A grid of sides up to
/// 2^32 has fewer than 2^64 cells, a step costs at most 282 and an estimate
/// is at most 20 times 2^32, so these sums stay far below 2^127. The search
/// calls `expand` on the start and on cells that `expand` returned, which
/// are cells of the grid, and each call leaves the tracker in order for the
/// next.
#[verifier::external_body]
fn fringe_search<F: Fn(Vec<(usize, usize)>), G: Fn(usize) -> u64>(
    terrain: &Terrain,
    rules: &PathRules,
    start: (usize, usize),
    end: (usize, usize),
    tracker: &mut ExplorationTracker,
    observer: &Option<F>,
    growth: &G,
) -> (found: Option<(Vec<(usize, usize)>, i128)>)
    requires
        terrain.wf(),
        terrain.elevations.width <= MAX_SIDE,
        terrain.elevations.height <= MAX_SIDE,
        terrain.has(start.1 as int, start.0 as int),
        terrain.has(end.1 as int, end.0 as int),
        old(tracker).wf(),
        old(tracker).width == terrain.elevations.width,
        old(tracker).height == terrain.elevations.height,
        observer is Some ==> forall|batch: Vec<(usize, usize)>| observer->0.requires((batch,)),
        forall|total: usize| growth.requires((total,)),
    ensures
        found_view(found) == fringe_result(terrain@, rules@, start, end),
{
    fringe(
        &start,
        |node| expand(terrain, rules, *node, tracker, observer, growth),
        |node| heuristic(*node, end),
        |node| reached(*node, end),
    )
}

/// The cost of a route never falls as the route grows: the first `i` steps
/// cost no more than the first `j` steps, for `i` up to `j`.
pub proof fn lemma_route_cost_monotone(
    terrain: TerrainView,
    rules: RulesView,
    nodes: Seq<(usize, usize)>,
    i: nat,
    j: nat,
)
    requires
        terrain.elevations.width <= usize::MAX && terrain.elevations.height <= usize::MAX,
        i <= j,
    ensures
        0 <= route_cost(terrain, rules, nodes, i) <= route_cost(terrain, rules, nodes, j),
    decreases j,
{
    if j > 0 {
        if step_to(terrain, rules, nodes[j - 1], nodes[j as int]) is Some {
            lemma_step_to_is_step(terrain, rules, nodes[j - 1], nodes[j as int]);
        }
        if i < j {
            lemma_route_cost_monotone(terrain, rules, nodes, i, (j - 1) as nat);
        } else {
            lemma_route_cost_monotone(terrain, rules, nodes, (j - 1) as nat, (j - 1) as nat);
        }
    }
}

/// Every step of a route goes to a neighbour on the grid that does not bar
/// the way, climbs less steeply than the rules allow, and has the cost that
/// the route counts for it.
pub proof fn lemma_route_steps(
    terrain: TerrainView,
    rules: RulesView,
    start: (usize, usize),
    end: (usize, usize),
    nodes: Seq<(usize, usize)>,
    i: int,
)
    requires
        terrain.elevations.width <= usize::MAX && terrain.elevations.height <= usize::MAX,
        is_route(terrain, rules, start, end, nodes),
        0 <= i < nodes.len() - 1,
    ensures
        step_to(terrain, rules, nodes[i], nodes[i + 1]) is Some,
        is_step(
            terrain,
            rules,
            nodes[i],
            nodes[i + 1],
            step_to(terrain, rules, nodes[i], nodes[i + 1])->0 as int,
        ),
        terrain.has(nodes[i].1 as int, nodes[i].0 as int),
        terrain.has(nodes[i + 1].1 as int, nodes[i + 1].0 as int),
        -1 <= nodes[i + 1].0 - nodes[i].0 <= 1,
        -1 <= nodes[i + 1].1 - nodes[i].1 <= 1,
        nodes[i + 1] != nodes[i],
        !blocked(terrain, rules, nodes[i + 1].0 as int, nodes[i + 1].1 as int),
        route_cost(terrain, rules, nodes, (i + 1) as nat) == route_cost(
            terrain,
            rules,
            nodes,
            i as nat,
        ) + step_to(terrain, rules, nodes[i], nodes[i + 1])->0,
{
    assert(step_to(terrain, rules, nodes[i], nodes[i + 1]) is Some);
    lemma_step_to_is_step(terrain, rules, nodes[i], nodes[i + 1]);
    assert(terrain.has(nodes[i].1 as int, nodes[i].0 as int));
    assert(terrain.has(nodes[i + 1].1 as int, nodes[i + 1].0 as int));
}

/// Looks up the step from `from` to `to` among the successors of `from`.
pub fn step_cost_to(terrain: &Terrain, rules: &PathRules, from: (usize, usize), to: (
    usize,
    usize,
)) -> (cost: Option<i32>)
    requires
        terrain.wf(),
        terrain.has(from.1 as int, from.0 as int),
    ensures
        cost == step_to(terrain@, rules@, from, to),
{
    let list = successors(terrain, rules, from.0, from.1);
    let mut k: usize = 0;
    while k < list.len()
        invariant
            k <= list.len(),
            list@ == successors_from(terrain@, rules@, from.0 as int, from.1 as int, 0),
            find_step(list@, to, k as int) == step_to(terrain@, rules@, from, to),
        decreases list.len() - k,
    {
        if list[k].0.0 == to.0 && list[k].0.1 == to.1 {
            return Some(list[k].1);
        }
        k += 1;
    }
    None
}

/// Turns what the search returned into the result: checks the list of
/// cells step by step and adds up the costs.
pub fn conclude_search(
    terrain: &Terrain,
    rules: &PathRules,
    start: (usize, usize),
    end: (usize, usize),
    found: Option<(Vec<(usize, usize)>, i128)>,
) -> (result: Result<Path, PathError>)
    requires
        terrain.wf(),
    ensures
        is_outcome(terrain@, rules@, start, end, found_view(found), result),
{
    let nodes: Vec<(usize, usize)> = match found {
        None => {
            return Err(PathError::NoPath);
        },
        Some(pair) => pair.0,
    };
    let len: usize = nodes.len();
    if len == 0 {
        return Err(PathError::Broken);
    }
    if !reached(nodes[0], start) || !reached(nodes[len - 1], end) {
        return Err(PathError::Broken);
    }
    let mut cost: i64 = 0;
    let mut seen: HashSet<u128> = HashSet::new();
    let mut i: usize = 0;
    while i < len
        invariant
            i <= len,
            len == nodes@.len(),
            len >= 1,
            forall|j: int| 0 <= j < i ==> seen@.contains(node_key(#[trigger] nodes@[j]) as u128),
            forall|key: u128|
                seen@.contains(key) ==> exists|j: int|
                    0 <= j < i && node_key(#[trigger] nodes@[j]) as u128 == key,
            forall|a: int, b: int| 0 <= a < b < i ==> nodes@[a] != nodes@[b],
            found is Some && listed(found_view(found)) == nodes@,
            nodes@[0] == start && nodes@[len - 1] == end,
            terrain.wf(),
            forall|j: int|
                0 <= j < i ==> terrain@.has((#[trigger] nodes@[j]).1 as int, nodes@[j].0 as int),
            forall|j: int|
                0 <= j < i - 1 ==> (#[trigger] step_to(terrain@, rules@, nodes@[j], nodes@[j + 1]))
                    is Some,
            cost == route_cost(
                terrain@,
                rules@,
                nodes@,
                if i == 0 {
                    0nat
                } else {
                    (i - 1) as nat
                },
            ),
        decreases len - i,
    {
        let here: (usize, usize) = nodes[i];
        if !(here.0 < terrain.elevations.width && here.1 < terrain.elevations.height) {
            assert(!terrain@.has(nodes@[i as int].1 as int, nodes@[i as int].0 as int));
            return Err(PathError::Broken);
        }
        let key: u128 = (here.1 as u128) * 0x1_0000_0000_0000_0000 + (here.0 as u128);
        if seen.contains(&key) {
            proof {
                let j = choose|j: int| 0 <= j < i && node_key(#[trigger] nodes@[j]) as u128 == key;
                assert(nodes@[j] == nodes@[i as int]);
            }
            return Err(PathError::Broken);
        }
        seen.insert(key);
        if i > 0 {
            match step_cost_to(terrain, rules, nodes[i - 1], here) {
                None => {
                    assert(step_to(terrain@, rules@, nodes@[i - 1], nodes@[(i - 1) + 1]) is None);
                    return Err(PathError::Broken);
                },
                Some(step) => {
                    proof {
                        lemma_step_to_is_step(terrain@, rules@, nodes@[i - 1], nodes@[i as int]);
                    }
                    match cost.checked_add(step as i64) {
                        None => {
                            proof {
                                lemma_route_cost_monotone(
                                    terrain@,
                                    rules@,
                                    nodes@,
                                    i as nat,
                                    (len - 1) as nat,
                                );
                            }
                            return Err(PathError::Broken);
                        },
                        Some(sum) => {
                            cost = sum;
                        },
                    }
                },
            }
        }
        i += 1;
    }
    Ok(Path { nodes, cost })
}

/// Searches a route from `start` to `end`, both given as (column, row).
///
/// A step goes to one of the eight neighbours. It must climb less steeply
/// than `max_gradient` (none: one in one), and a cell steeper than
/// `aspect_gradient_threshold` (none: zero) that faces one of
/// `excluded_aspects` to within 2.5 degrees ends the list of neighbours of
/// the cell from which it is tried. Where `exploration_callback` is given
/// it receives the frontier of the explored cells, as (column, row), each
/// time the visits since the last batch reach the batch size, and once more
/// after the search if the frontier is not empty. The batch size is
/// `exploration_batch_size` (none: 10000) times the growth that
/// `batch_growth` gives for the number of visits so far, in millionths and
/// held between one and sixteen: 2 to the power of the decimal logarithm of
/// that number less 2.5.
pub fn find_path_rs<F: Fn(Vec<(usize, usize)>), G: Fn(usize) -> u64>(
    elevations: Raster<i32>,
    start: (usize, usize),
    end: (usize, usize),
    max_gradient: Option<i64>,
    azimuths: Raster<i32>,
    excluded_aspects: Vec<Aspect>,
    gradients: Raster<i64>,
    aspect_gradient_threshold: Option<i64>,
    exploration_callback: Option<F>,
    exploration_batch_size: Option<usize>,
    batch_growth: G,
) -> (result: Result<Path, PathError>)
    requires
        exploration_callback is Some ==> forall|batch: Vec<(usize, usize)>|
            exploration_callback->0.requires((batch,)),
        forall|total: usize| batch_growth.requires((total,)),
    ensures
        ({
            let terrain = TerrainView {
                elevations: elevations@,
                azimuths: azimuths@,
                gradients: gradients@,
            };
            let rules = RulesView {
                max_gradient: match max_gradient {
                    Some(limit) => limit as int,
                    None => DEFAULT_MAX_GRADIENT as int,
                },
                excluded_aspects: excluded_aspects@,
                aspect_gradient_threshold: match aspect_gradient_threshold {
                    Some(limit) => limit as int,
                    None => DEFAULT_ASPECT_GRADIENT_THRESHOLD as int,
                },
            };
            if !(elevations.wf() && azimuths.wf() && gradients.wf() && azimuths.same_shape(
                &elevations,
            ) && gradients.same_shape(&elevations)) {
                result == Err::<Path, PathError>(PathError::ShapeMismatch)
            } else if elevations.width > MAX_SIDE || elevations.height > MAX_SIDE {
                result == Err::<Path, PathError>(PathError::TooLarge)
            } else if !terrain.has(start.1 as int, start.0 as int) {
                result == Err::<Path, PathError>(PathError::StartOutside)
            } else if !terrain.has(end.1 as int, end.0 as int) {
                result == Err::<Path, PathError>(PathError::EndOutside)
            } else {
                &&& is_outcome(
                    terrain,
                    rules,
                    start,
                    end,
                    fringe_result(terrain, rules, start, end),
                    result,
                )
                &&& result is Ok ==> is_route(terrain, rules, start, end, result->Ok_0.nodes@)
            }
        }),
{
    let terrain: Terrain = match Terrain::new(elevations, azimuths, gradients) {
        Some(terrain) => terrain,
        None => {
            return Err(PathError::ShapeMismatch);
        },
    };
    let width: usize = terrain.elevations.width;
    let height: usize = terrain.elevations.height;
    if width as u64 > MAX_SIDE || height as u64 > MAX_SIDE {
        return Err(PathError::TooLarge);
    }
    if !(start.0 < width && start.1 < height) {
        return Err(PathError::StartOutside);
    }
    if !(end.0 < width && end.1 < height) {
        return Err(PathError::EndOutside);
    }
    let rules = PathRules {
        max_gradient: match max_gradient {
            Some(limit) => limit,
            None => DEFAULT_MAX_GRADIENT,
        },
        excluded_aspects,
        aspect_gradient_threshold: match aspect_gradient_threshold {
            Some(limit) => limit,
            None => DEFAULT_ASPECT_GRADIENT_THRESHOLD,
        },
    };
    let batch_size: usize = match exploration_batch_size {
        Some(size) => size,
        None => DEFAULT_BATCH_SIZE,
    };
    let mut tracker = ExplorationTracker::new(
        exploration_callback.is_some(),
        batch_size,
        width,
        height,
    );
    let found = fringe_search(
        &terrain,
        &rules,
        start,
        end,
        &mut tracker,
        &exploration_callback,
        &batch_growth,
    );
    let rest: Vec<(usize, usize)> = tracker.flush();
    if rest.len() > 0 {
        match &exploration_callback {
            Some(emit) => {
                emit(rest);
            },
            None => {},
        }
    }
    conclude_search(&terrain, &rules, start, end, found)
}

} // verus!

//! Avalanche runout: debris released on steep slopes of chosen aspects,
//! followed down the flow directions and spread sideways.

use crate::aspect::Aspect;
use crate::flow::{
    col_offset, compute_d8_flow_directions, flow_direction, neighbour, row_offset, NO_FLOW,
};
use crate::raster::{Grid, Raster};
use crate::terrain::{Terrain, TerrainView};
use vstd::prelude::*;

verus! {

/// The least steepness of a release zone: the tangent of 10 degrees.
pub const START_ZONE_THRESHOLD: i64 = 176000;

/// The steepness from which a release zone no longer marks itself.
pub const BLEND_LIMIT: i64 = 350000;

/// The intensity of debris as it leaves a release zone.
pub const INITIAL_INTENSITY: i32 = 1000000;

/// The intensity below which debris comes to rest.
pub const REST_INTENSITY: i32 = 50000;

/// The number of cells after which debris comes to rest at the latest.
pub const MAX_RUNOUT_CELLS: usize = 50;

/// How far either side of a sector a release zone's azimuth may lie.
pub const RELEASE_TOLERANCE: i32 = 22500;

/// The number of sideways spreading passes.
pub const SPREAD_PASSES: usize = 2;

/// The larger of two numbers.
pub open spec fn larger(a: int, b: int) -> int {
    if a >= b {
        a
    } else {
        b
    }
}

/// Whether a cell is a release zone: steep enough, and facing one of the
/// sectors `sectors` to within 22.5 degrees.
pub open spec fn is_source(terrain: TerrainView, sectors: Seq<Aspect>, row: int, col: int) -> bool {
    terrain.gradients.at(row, col) >= START_ZONE_THRESHOLD && Aspect::any_covers(
        sectors,
        terrain.azimuths.at(row, col) as int,
        RELEASE_TOLERANCE as int,
    )
}

/// What a release zone of steepness `gradient` marks on itself: half the
/// full intensity at the threshold, falling in a line to nothing at the
/// blend limit.
pub open spec fn edge_blend(gradient: int) -> int {
    if gradient - START_ZONE_THRESHOLD < BLEND_LIMIT - START_ZONE_THRESHOLD {
        ((BLEND_LIMIT - gradient) * 250) / 87
    } else {
        0
    }
}

/// The intensity of debris after `steps` cells: 92 percent of what it was
/// a cell before, rounded down.
pub open spec fn intensity_after(steps: nat) -> int
    decreases steps,
{
    if steps == 0 {
        INITIAL_INTENSITY as int
    } else {
        (intensity_after((steps - 1) as nat) * 92) / 100
    }
}

/// Whether debris that has come `steps` cells goes on.
pub open spec fn moves_on(steps: nat) -> bool {
    steps == 0 || (steps < MAX_RUNOUT_CELLS && intensity_after(steps) >= REST_INTENSITY)
}

/// The cell that `(row, col)` drains to, unless it drains nowhere or onto
/// the outer ring.
pub open spec fn flow_step(elevations: Grid<i32>, row: int, col: int) -> Option<(int, int)> {
    let dir = flow_direction(elevations, row, col);
    if dir == NO_FLOW {
        None
    } else if elevations.inside(row + row_offset(dir), col + col_offset(dir), 1) {
        Some((row + row_offset(dir), col + col_offset(dir)))
    } else {
        None
    }
}

/// Where debris released at `(row, col)` is after `steps` cells, if it has
/// not come to rest before.
pub open spec fn walk(elevations: Grid<i32>, row: int, col: int, steps: nat) -> Option<
    (int, int),
>
    decreases steps,
{
    if steps == 0 {
        Some((row, col))
    } else {
        match walk(elevations, row, col, (steps - 1) as nat) {
            None => None,
            Some(at) => if moves_on((steps - 1) as nat) {
                flow_step(elevations, at.0, at.1)
            } else {
                None
            },
        }
    }
}

/// What debris released at `(from_row, from_col)` leaves on `(row, col)`
/// with its step number `steps`: its intensity there, unless the cell is a
/// release zone itself.
pub open spec fn arrival(
    terrain: TerrainView,
    sectors: Seq<Aspect>,
    from_row: int,
    from_col: int,
    steps: nat,
    row: int,
    col: int,
) -> int {
    if steps >= 1 && walk(terrain.elevations, from_row, from_col, steps) == Some((row, col))
        && !is_source(terrain, sectors, row, col) {
        intensity_after(steps)
    } else {
        0
    }
}

/// The most that debris released at `(from_row, from_col)` leaves on
/// `(row, col)` within its first `steps` steps.
pub open spec fn best_from(
    terrain: TerrainView,
    sectors: Seq<Aspect>,
    from_row: int,
    from_col: int,
    steps: nat,
    row: int,
    col: int,
) -> int
    decreases steps,
{
    if steps == 0 {
        0
    } else {
        larger(
            best_from(terrain, sectors, from_row, from_col, (steps - 1) as nat, row, col),
            arrival(terrain, sectors, from_row, from_col, steps, row, col),
        )
    }
}

/// What `(from_row, from_col)` sends to `(row, col)`: nothing unless it is
/// a release zone off the outer ring.
pub open spec fn sent_from(
    terrain: TerrainView,
    sectors: Seq<Aspect>,
    from_row: int,
    from_col: int,
    row: int,
    col: int,
) -> int {
    if terrain.interior(from_row, from_col) && is_source(terrain, sectors, from_row, from_col) {
        best_from(terrain, sectors, from_row, from_col, MAX_RUNOUT_CELLS as nat, row, col)
    } else {
        0
    }
}

/// The most that `(row, col)` receives from the first `cols` cells of row
/// `from_row`.
pub open spec fn best_in_row(
    terrain: TerrainView,
    sectors: Seq<Aspect>,
    from_row: int,
    cols: nat,
    row: int,
    col: int,
) -> int
    decreases cols,
{
    if cols == 0 {
        0
    } else {
        larger(
            best_in_row(terrain, sectors, from_row, (cols - 1) as nat, row, col),
            sent_from(terrain, sectors, from_row, cols - 1, row, col),
        )
    }
}

/// The most that `(row, col)` receives from the first `rows` rows.
pub open spec fn best_in_rows(
    terrain: TerrainView,
    sectors: Seq<Aspect>,
    rows: nat,
    row: int,
    col: int,
) -> int
    decreases rows,
{
    if rows == 0 {
        0
    } else {
        larger(
            best_in_rows(terrain, sectors, (rows - 1) as nat, row, col),
            best_in_row(terrain, sectors, rows - 1, terrain.elevations.width as nat, row, col),
        )
    }
}

/// What a cell marks on itself.
pub open spec fn own_mark(terrain: TerrainView, sectors: Seq<Aspect>, row: int, col: int) -> int {
    if terrain.interior(row, col) && is_source(terrain, sectors, row, col) {
        edge_blend(terrain.gradients.at(row, col) as int)
    } else {
        0
    }
}

/// The intensity of a cell once every release zone has sent its debris
/// down the flow directions: the most that reaches it, or its own mark.
pub open spec fn propagated(terrain: TerrainView, sectors: Seq<Aspect>, row: int, col: int) -> int {
    larger(
        own_mark(terrain, sectors, row, col),
        best_in_rows(terrain, sectors, terrain.elevations.height as nat, row, col),
    )
}

/// What a cell of intensity `value` passes on sideways: 70 percent of it.
pub open spec fn spread_of(value: int) -> int {
    (value * 7) / 10
}

/// The intensity of a cell after `passes` spreading passes. In a pass a
/// cell off the outer ring that is no release zone rises to what its
/// northern, southern, western and eastern neighbours off the outer ring
/// pass on, where that is more than it has.
pub open spec fn spread_after(
    terrain: TerrainView,
    sectors: Seq<Aspect>,
    passes: nat,
    row: int,
    col: int,
) -> int
    decreases passes,
{
    if passes == 0 {
        propagated(terrain, sectors, row, col)
    } else {
        let before = (passes - 1) as nat;
        let own = spread_after(terrain, sectors, before, row, col);
        if terrain.interior(row, col) && !is_source(terrain, sectors, row, col) {
            let north = spread_after(terrain, sectors, before, row - 1, col);
            let south = spread_after(terrain, sectors, before, row + 1, col);
            let west = spread_after(terrain, sectors, before, row, col - 1);
            let east = spread_after(terrain, sectors, before, row, col + 1);
            larger(
                larger(own, inflow(terrain, north, row - 1, col)),
                larger(
                    inflow(terrain, south, row + 1, col),
                    larger(
                        inflow(terrain, west, row, col - 1),
                        inflow(terrain, east, row, col + 1),
                    ),
                ),
            )
        } else {
            own
        }
    }
}

/// What the cell `(row, col)` of intensity `value` passes on to a
/// neighbour: nothing from the outer ring.
pub open spec fn inflow(terrain: TerrainView, value: int, row: int, col: int) -> int {
    if terrain.interior(row, col) {
        spread_of(value)
    } else {
        0
    }
}

/// The runout intensity of a cell, in millionths: nothing where no sector
/// is chosen, else what two spreading passes leave.
pub open spec fn runout_at(terrain: TerrainView, sectors: Seq<Aspect>, row: int, col: int) -> int {
    if sectors.len() == 0 {
        0
    } else {
        spread_after(terrain, sectors, SPREAD_PASSES as nat, row, col)
    }
}

/// Debris never gains intensity and never has more than it started with.
pub proof fn lemma_intensity_bounds(steps: nat)
    ensures
        0 <= intensity_after(steps) <= INITIAL_INTENSITY,
        steps > 0 ==> intensity_after(steps) <= intensity_after((steps - 1) as nat),
    decreases steps,
{
    if steps > 0 {
        lemma_intensity_bounds((steps - 1) as nat);
    }
}

/// Debris that has come to rest stays at rest.
pub proof fn lemma_walk_rests(elevations: Grid<i32>, row: int, col: int, steps: nat, later: nat)
    requires
        walk(elevations, row, col, steps) is None,
        steps <= later,
    ensures
        walk(elevations, row, col, later) is None,
    decreases later,
{
    if later > steps {
        lemma_walk_rests(elevations, row, col, steps, (later - 1) as nat);
    }
}

/// What one release zone leaves on a cell lies between nothing and the
/// full intensity.
pub proof fn lemma_best_from_bounds(
    terrain: TerrainView,
    sectors: Seq<Aspect>,
    from_row: int,
    from_col: int,
    steps: nat,
    row: int,
    col: int,
)
    ensures
        0 <= best_from(terrain, sectors, from_row, from_col, steps, row, col) <= INITIAL_INTENSITY,
    decreases steps,
{
    if steps > 0 {
        lemma_best_from_bounds(terrain, sectors, from_row, from_col, (steps - 1) as nat, row, col);
        lemma_intensity_bounds(steps);
    }
}

/// Once debris has come to rest it leaves nothing more.
pub proof fn lemma_best_from_settles(
    terrain: TerrainView,
    sectors: Seq<Aspect>,
    from_row: int,
    from_col: int,
    steps: nat,
    later: nat,
    row: int,
    col: int,
)
    requires
        walk(terrain.elevations, from_row, from_col, steps + 1) is None,
        steps <= later,
    ensures
        best_from(terrain, sectors, from_row, from_col, later, row, col) == best_from(
            terrain,
            sectors,
            from_row,
            from_col,
            steps,
            row,
            col,
        ),
    decreases later,
{
    if later > steps {
        lemma_best_from_settles(
            terrain,
            sectors,
            from_row,
            from_col,
            steps,
            (later - 1) as nat,
            row,
            col,
        );
        lemma_walk_rests(terrain.elevations, from_row, from_col, steps + 1, later);
        lemma_best_from_bounds(terrain, sectors, from_row, from_col, steps, row, col);
    }
}

/// What a row of release zones leaves on a cell lies between nothing and
/// the full intensity; a row without cells off the outer ring leaves
/// nothing.
pub proof fn lemma_best_in_row_bounds(
    terrain: TerrainView,
    sectors: Seq<Aspect>,
    from_row: int,
    cols: nat,
    row: int,
    col: int,
)
    ensures
        0 <= best_in_row(terrain, sectors, from_row, cols, row, col) <= INITIAL_INTENSITY,
        (forall|c: int| !terrain.interior(from_row, c)) ==> best_in_row(
            terrain,
            sectors,
            from_row,
            cols,
            row,
            col,
        ) == 0,
    decreases cols,
{
    if cols > 0 {
        lemma_best_in_row_bounds(terrain, sectors, from_row, (cols - 1) as nat, row, col);
        lemma_best_from_bounds(
            terrain,
            sectors,
            from_row,
            cols - 1,
            MAX_RUNOUT_CELLS as nat,
            row,
            col,
        );
    }
}

/// What the first rows of release zones leave on a cell lies between
/// nothing and the full intensity; a grid without cells off the outer ring
/// leaves nothing.
pub proof fn lemma_best_in_rows_bounds(
    terrain: TerrainView,
    sectors: Seq<Aspect>,
    rows: nat,
    row: int,
    col: int,
)
    ensures
        0 <= best_in_rows(terrain, sectors, rows, row, col) <= INITIAL_INTENSITY,
        (forall|r: int, c: int| !terrain.interior(r, c)) ==> best_in_rows(
            terrain,
            sectors,
            rows,
            row,
            col,
        ) == 0,
    decreases rows,
{
    if rows > 0 {
        lemma_best_in_rows_bounds(terrain, sectors, (rows - 1) as nat, row, col);
        lemma_best_in_row_bounds(
            terrain,
            sectors,
            rows - 1,
            terrain.elevations.width as nat,
            row,
            col,
        );
    }
}

/// A cell marks itself with at most half the full intensity.
pub proof fn lemma_own_mark_bounds(terrain: TerrainView, sectors: Seq<Aspect>, row: int, col: int)
    ensures
        0 <= own_mark(terrain, sectors, row, col) <= INITIAL_INTENSITY / 2,
{
}

/// What the release zones before `(next_row, next_col)`, row by row, have
/// left on `(row, col)`.
pub open spec fn marked_before(
    terrain: TerrainView,
    sectors: Seq<Aspect>,
    next_row: int,
    next_col: int,
    row: int,
    col: int,
) -> int {
    larger(
        if row < next_row || (row == next_row && col < next_col) {
            own_mark(terrain, sectors, row, col)
        } else {
            0
        },
        larger(
            best_in_rows(terrain, sectors, next_row as nat, row, col),
            best_in_row(terrain, sectors, next_row, next_col as nat, row, col),
        ),
    )
}

/// Tests whether a cell is a release zone.
pub fn is_release_zone(terrain: &Terrain, sectors: &Vec<Aspect>, row: usize, col: usize) -> (yes:
    bool)
    requires
        terrain.wf(),
        terrain.has(row as int, col as int),
    ensures
        yes == is_source(terrain@, sectors@, row as int, col as int),
{
    if terrain.gradients.get(row, col) < START_ZONE_THRESHOLD {
        return false;
    }
    Aspect::any_contains(sectors, terrain.azimuths.get(row, col), RELEASE_TOLERANCE)
}

/// Follows the debris of one release zone down the flow directions and
/// raises each cell it passes, release zones excepted, to its intensity
/// there.
fn trace_debris(
    terrain: &Terrain,
    sectors: &Vec<Aspect>,
    flow: &Raster<u8>,
    runout: &mut Raster<i32>,
    row: usize,
    col: usize,
)
    requires
        terrain.wf(),
        terrain.interior(row as int, col as int),
        flow.wf() && flow.same_shape(&terrain.elevations),
        forall|r: int, c: int|
            terrain.has(r, c) ==> #[trigger] flow.at(r, c) == flow_direction(
                terrain.elevations@,
                r,
                c,
            ),
        old(runout).wf() && old(runout).same_shape(&terrain.elevations),
        forall|r: int, c: int| terrain.has(r, c) ==> 0 <= #[trigger] old(runout).at(r, c),
    ensures
        final(runout).wf() && final(runout).same_shape(&terrain.elevations),
        forall|r: int, c: int|
            terrain.has(r, c) ==> #[trigger] final(runout).at(r, c) == larger(
                old(runout).at(r, c) as int,
                best_from(
                    terrain@,
                    sectors@,
                    row as int,
                    col as int,
                    MAX_RUNOUT_CELLS as nat,
                    r,
                    c,
                ),
            ),
{
    let ghost before = *runout;
    let mut at_row: usize = row;
    let mut at_col: usize = col;
    let mut steps: usize = 0;
    let mut intensity: i32 = INITIAL_INTENSITY;
    proof {
        assert forall|r: int, c: int| terrain.has(r, c) implies #[trigger] runout.at(r, c)
            == larger(
            before.at(r, c) as int,
            best_from(terrain@, sectors@, row as int, col as int, 0, r, c),
        ) by {}
    }
    loop
        invariant_except_break
            moves_on(steps as nat),
        invariant
            terrain.wf(),
            flow.wf() && flow.same_shape(&terrain.elevations),
            forall|r: int, c: int|
                terrain.has(r, c) ==> #[trigger] flow.at(r, c) == flow_direction(
                    terrain.elevations@,
                    r,
                    c,
                ),
            runout.wf() && runout.same_shape(&terrain.elevations),
            steps <= MAX_RUNOUT_CELLS,
            terrain.interior(at_row as int, at_col as int),
            walk(terrain.elevations@, row as int, col as int, steps as nat) == Some(
                (at_row as int, at_col as int),
            ),
            intensity == intensity_after(steps as nat),
            0 <= intensity <= INITIAL_INTENSITY,
            forall|r: int, c: int|
                terrain.has(r, c) ==> #[trigger] runout.at(r, c) == larger(
                    before.at(r, c) as int,
                    best_from(terrain@, sectors@, row as int, col as int, steps as nat, r, c),
                ),
        ensures
            walk(terrain.elevations@, row as int, col as int, (steps + 1) as nat) is None,
        decreases MAX_RUNOUT_CELLS - steps,
    {
        let dir: u8 = flow.get(at_row, at_col);
        if dir == NO_FLOW {
            break;
        }
        proof {
            crate::flow::lemma_steepest_among(terrain.elevations@, at_row as int, at_col as int, 8);
        }
        let (next_row, next_col) = neighbour(at_row, at_col, dir);
        if next_row == 0 || next_row >= terrain.elevations.height - 1 || next_col == 0 || next_col
            >= terrain.elevations.width - 1 {
            break;
        }
        at_row = next_row;
        at_col = next_col;
        steps += 1;
        intensity = (intensity * 92) / 100;
        let ghost marks = *runout;
        if !is_release_zone(terrain, sectors, at_row, at_col) {
            let had: i32 = runout.get(at_row, at_col);
            if intensity > had {
                runout.set(at_row, at_col, intensity);
            }
        }
        proof {
            lemma_intensity_bounds(steps as nat);
            assert forall|r: int, c: int| terrain.has(r, c) implies #[trigger] runout.at(r, c)
                == larger(
                before.at(r, c) as int,
                best_from(terrain@, sectors@, row as int, col as int, steps as nat, r, c),
            ) by {
                lemma_best_from_bounds(
                    terrain@,
                    sectors@,
                    row as int,
                    col as int,
                    (steps - 1) as nat,
                    r,
                    c,
                );
                assert(marks.at(r, c) == larger(
                    before.at(r, c) as int,
                    best_from(terrain@, sectors@, row as int, col as int, (steps - 1) as nat, r, c),
                ));
            }
        }
        if steps >= MAX_RUNOUT_CELLS {
            break;
        }
        if intensity < REST_INTENSITY {
            break;
        }
    }
    proof {
        assert forall|r: int, c: int| terrain.has(r, c) implies #[trigger] runout.at(r, c)
            == larger(
            before.at(r, c) as int,
            best_from(
                terrain@,
                sectors@,
                row as int,
                col as int,
                MAX_RUNOUT_CELLS as nat,
                r,
                c,
            ),
        ) by {
            lemma_best_from_settles(
                terrain@,
                sectors@,
                row as int,
                col as int,
                steps as nat,
                MAX_RUNOUT_CELLS as nat,
                r,
                c,
            );
        }
    }
}

/// Lets every release zone mark itself and send its debris down the flow
/// directions.
fn propagate(terrain: &Terrain, sectors: &Vec<Aspect>, flow: &Raster<u8>) -> (runout: Raster<i32>)
    requires
        terrain.wf(),
        flow.wf() && flow.same_shape(&terrain.elevations),
        forall|r: int, c: int|
            terrain.has(r, c) ==> #[trigger] flow.at(r, c) == flow_direction(
                terrain.elevations@,
                r,
                c,
            ),
    ensures
        runout.wf() && runout.same_shape(&terrain.elevations),
        forall|r: int, c: int|
            terrain.has(r, c) ==> #[trigger] runout.at(r, c) == propagated(
                terrain@,
                sectors@,
                r,
                c,
            ),
{
    let width: usize = terrain.elevations.width;
    let height: usize = terrain.elevations.height;
    assert(terrain.elevations.cells@.len() == terrain.elevations.cells.len());
    let mut runout: Raster<i32> = Raster::filled(width, height, 0);
    if height < 3 || width < 3 {
        proof {
            assert forall|r: int, c: int| terrain.has(r, c) implies #[trigger] runout.at(r, c)
                == propagated(terrain@, sectors@, r, c) by {
                lemma_best_in_rows_bounds(terrain@, sectors@, height as nat, r, c);
            }
        }
        return runout;
    }
    proof {
        assert forall|r: int, c: int| terrain.has(r, c) implies #[trigger] runout.at(r, c)
            == marked_before(terrain@, sectors@, 1, 0, r, c) by {
            reveal_with_fuel(best_in_rows, 2);
            lemma_best_in_row_bounds(terrain@, sectors@, 0, width as nat, r, c);
        }
    }
    let mut row: usize = 1;
    while row < height - 1
        invariant
            1 <= row <= height - 1,
            width >= 3,
            terrain.wf(),
            width == terrain.elevations.width,
            height == terrain.elevations.height,
            flow.wf() && flow.same_shape(&terrain.elevations),
            forall|r: int, c: int|
                terrain.has(r, c) ==> #[trigger] flow.at(r, c) == flow_direction(
                    terrain.elevations@,
                    r,
                    c,
                ),
            runout.wf() && runout.same_shape(&terrain.elevations),
            forall|r: int, c: int|
                terrain.has(r, c) ==> #[trigger] runout.at(r, c) == marked_before(
                    terrain@,
                    sectors@,
                    row as int,
                    0,
                    r,
                    c,
                ),
        decreases height - row,
    {
        proof {
            assert forall|r: int, c: int| terrain.has(r, c) implies #[trigger] runout.at(r, c)
                == marked_before(terrain@, sectors@, row as int, 1, r, c) by {
                assert(!terrain.interior(row as int, 0));
            }
        }
        let mut col: usize = 1;
        while col < width - 1
            invariant
                1 <= row < height - 1,
                1 <= col <= width - 1,
                terrain.wf(),
                width == terrain.elevations.width,
                height == terrain.elevations.height,
                flow.wf() && flow.same_shape(&terrain.elevations),
                forall|r: int, c: int|
                    terrain.has(r, c) ==> #[trigger] flow.at(r, c) == flow_direction(
                        terrain.elevations@,
                        r,
                        c,
                    ),
                runout.wf() && runout.same_shape(&terrain.elevations),
                forall|r: int, c: int|
                    terrain.has(r, c) ==> #[trigger] runout.at(r, c) == marked_before(
                        terrain@,
                        sectors@,
                        row as int,
                        col as int,
                        r,
                        c,
                    ),
            decreases width - col,
        {
            let ghost marks = runout;
            proof {
                assert forall|r: int, c: int| terrain.has(r, c) implies 0 <= #[trigger] runout.at(
                    r,
                    c,
                ) by {
                    lemma_best_in_rows_bounds(terrain@, sectors@, row as nat, r, c);
                    lemma_best_in_row_bounds(terrain@, sectors@, row as int, col as nat, r, c);
                    lemma_own_mark_bounds(terrain@, sectors@, r, c);
                }
            }
            if is_release_zone(terrain, sectors, row, col) {
                let gradient: i64 = terrain.gradients.get(row, col);
                if gradient - START_ZONE_THRESHOLD < BLEND_LIMIT - START_ZONE_THRESHOLD {
                    let edge: i32 = (((BLEND_LIMIT - gradient) * 250) / 87) as i32;
                    if edge > runout.get(row, col) {
                        runout.set(row, col, edge);
                    }
                }
                trace_debris(terrain, sectors, flow, &mut runout, row, col);
            }
            proof {
                assert forall|r: int, c: int| terrain.has(r, c) implies #[trigger] runout.at(r, c)
                    == marked_before(terrain@, sectors@, row as int, col + 1, r, c) by {
                    assert(marks.at(r, c) == marked_before(
                        terrain@,
                        sectors@,
                        row as int,
                        col as int,
                        r,
                        c,
                    ));
                    lemma_best_in_rows_bounds(terrain@, sectors@, row as nat, r, c);
                    lemma_best_in_row_bounds(terrain@, sectors@, row as int, col as nat, r, c);
                    lemma_own_mark_bounds(terrain@, sectors@, r, c);
                    lemma_best_from_bounds(
                        terrain@,
                        sectors@,
                        row as int,
                        col as int,
                        MAX_RUNOUT_CELLS as nat,
                        r,
                        c,
                    );
                }
            }
            col += 1;
        }
        proof {
            assert forall|r: int, c: int| terrain.has(r, c) implies #[trigger] runout.at(r, c)
                == marked_before(terrain@, sectors@, row + 1, 0, r, c) by {
                assert(!terrain.interior(row as int, width - 1));
                lemma_best_in_rows_bounds(terrain@, sectors@, row as nat, r, c);
                lemma_best_in_row_bounds(terrain@, sectors@, row as int, (width - 1) as nat, r, c);
                lemma_own_mark_bounds(terrain@, sectors@, r, c);
            }
        }
        row += 1;
    }
    proof {
        assert forall|r: int, c: int| terrain.has(r, c) implies #[trigger] runout.at(r, c)
            == propagated(terrain@, sectors@, r, c) by {
            lemma_best_in_row_bounds(terrain@, sectors@, height - 1, width as nat, r, c);
            lemma_best_in_rows_bounds(terrain@, sectors@, (height - 1) as nat, r, c);
            lemma_own_mark_bounds(terrain@, sectors@, r, c);
        }
    }
    runout
}

/// After any number of passes the intensity of a cell lies between nothing
/// and the full intensity.
pub proof fn lemma_spread_bounds(
    terrain: TerrainView,
    sectors: Seq<Aspect>,
    passes: nat,
    row: int,
    col: int,
)
    ensures
        0 <= spread_after(terrain, sectors, passes, row, col) <= INITIAL_INTENSITY,
    decreases passes,
{
    if passes == 0 {
        lemma_own_mark_bounds(terrain, sectors, row, col);
        lemma_best_in_rows_bounds(terrain, sectors, terrain.elevations.height as nat, row, col);
    } else {
        let before = (passes - 1) as nat;
        lemma_spread_bounds(terrain, sectors, before, row, col);
        lemma_spread_bounds(terrain, sectors, before, row - 1, col);
        lemma_spread_bounds(terrain, sectors, before, row + 1, col);
        lemma_spread_bounds(terrain, sectors, before, row, col - 1);
        lemma_spread_bounds(terrain, sectors, before, row, col + 1);
    }
}

/// What a neighbour passes on, read from the grid of the pass before.
fn inflow_from(terrain: &Terrain, before: &Raster<i32>, row: usize, col: usize) -> (value: i32)
    requires
        terrain.wf(),
        before.wf() && before.same_shape(&terrain.elevations),
        terrain.has(row as int, col as int),
        0 <= before.at(row as int, col as int) <= INITIAL_INTENSITY,
    ensures
        value == inflow(terrain@, before.at(row as int, col as int) as int, row as int, col as int),
{
    if row > 0 && row < terrain.elevations.height - 1 && col > 0 && col
        < terrain.elevations.width - 1 {
        (before.get(row, col) * 7) / 10
    } else {
        0
    }
}

/// One spreading pass, read from `before` and written to a grid of its own.
fn spread_once(
    terrain: &Terrain,
    sectors: &Vec<Aspect>,
    before: &Raster<i32>,
    Ghost(passes): Ghost<nat>,
) -> (after: Raster<i32>)
    requires
        terrain.wf(),
        before.wf() && before.same_shape(&terrain.elevations),
        forall|r: int, c: int|
            terrain.has(r, c) ==> #[trigger] before.at(r, c) == spread_after(
                terrain@,
                sectors@,
                passes,
                r,
                c,
            ),
    ensures
        after.wf() && after.same_shape(&terrain.elevations),
        forall|r: int, c: int|
            terrain.has(r, c) ==> #[trigger] after.at(r, c) == spread_after(
                terrain@,
                sectors@,
                passes + 1,
                r,
                c,
            ),
{
    let width: usize = terrain.elevations.width;
    let height: usize = terrain.elevations.height;
    assert(terrain.elevations.cells@.len() == terrain.elevations.cells.len());
    let mut after: Raster<i32> = Raster::filled(width, height, 0);
    proof {
        assert forall|r: int, c: int| terrain.has(r, c) implies 0 <= #[trigger] before.at(r, c)
            <= INITIAL_INTENSITY by {
            lemma_spread_bounds(terrain@, sectors@, passes, r, c);
        }
    }
    let mut row: usize = 0;
    while row < height
        invariant
            row <= height,
            terrain.wf(),
            width == terrain.elevations.width,
            height == terrain.elevations.height,
            before.wf() && before.same_shape(&terrain.elevations),
            after.wf() && after.same_shape(&terrain.elevations),
            forall|r: int, c: int|
                terrain.has(r, c) ==> #[trigger] before.at(r, c) == spread_after(
                    terrain@,
                    sectors@,
                    passes,
                    r,
                    c,
                ),
            forall|r: int, c: int|
                terrain.has(r, c) ==> 0 <= #[trigger] before.at(r, c) <= INITIAL_INTENSITY,
            forall|r: int, c: int|
                terrain.has(r, c) && r < row ==> #[trigger] after.at(r, c) == spread_after(
                    terrain@,
                    sectors@,
                    passes + 1,
                    r,
                    c,
                ),
        decreases height - row,
    {
        let mut col: usize = 0;
        while col < width
            invariant
                row < height,
                col <= width,
                terrain.wf(),
                width == terrain.elevations.width,
                height == terrain.elevations.height,
                before.wf() && before.same_shape(&terrain.elevations),
                after.wf() && after.same_shape(&terrain.elevations),
                forall|r: int, c: int|
                    terrain.has(r, c) ==> #[trigger] before.at(r, c) == spread_after(
                        terrain@,
                        sectors@,
                        passes,
                        r,
                        c,
                    ),
                forall|r: int, c: int|
                    terrain.has(r, c) ==> 0 <= #[trigger] before.at(r, c) <= INITIAL_INTENSITY,
                forall|r: int, c: int|
                    terrain.has(r, c) && (r < row || (r == row && c < col)) ==> #[trigger] after.at(
                        r,
                        c,
                    ) == spread_after(terrain@, sectors@, passes + 1, r, c),
            decreases width - col,
        {
            let mut value: i32 = before.get(row, col);
            if row > 0 && row < height - 1 && col > 0 && col < width - 1 && !is_release_zone(
                terrain,
                sectors,
                row,
                col,
            ) {
                let north: i32 = inflow_from(terrain, before, row - 1, col);
                let south: i32 = inflow_from(terrain, before, row + 1, col);
                let west: i32 = inflow_from(terrain, before, row, col - 1);
                let east: i32 = inflow_from(terrain, before, row, col + 1);
                if north > value {
                    value = north;
                }
                if south > value {
                    value = south;
                }
                if west > value {
                    value = west;
                }
                if east > value {
                    value = east;
                }
            }
            assert(value == spread_after(
                terrain@,
                sectors@,
                passes + 1,
                row as int,
                col as int,
            ));
            after.set(row, col, value);
            col += 1;
        }
        row += 1;
    }
    after
}

/// The runout intensity of every cell, in millionths. Release zones are the
/// cells off the outer ring whose steepness reaches the threshold and whose
/// azimuth lies within 22.5 degrees of one of `excluded_aspects`.
pub fn compute_runout_zones(terrain: &Terrain, excluded_aspects: &Vec<Aspect>) -> (runout: Raster<
    i32,
>)
    requires
        terrain.wf(),
    ensures
        runout.wf() && runout.same_shape(&terrain.elevations),
        forall|row: int, col: int|
            terrain.has(row, col) ==> #[trigger] runout.at(row, col) == runout_at(
                terrain@,
                excluded_aspects@,
                row,
                col,
            ),
        forall|row: int, col: int|
            terrain.has(row, col) ==> 0 <= #[trigger] runout.at(row, col) <= INITIAL_INTENSITY,
        excluded_aspects@.len() == 0 ==> forall|row: int, col: int|
            terrain.has(row, col) ==> #[trigger] runout.at(row, col) == 0,
        forall|row: int, col: int|
            terrain.has(row, col) && !terrain.interior(row, col) ==> #[trigger] runout.at(row, col)
                == 0,
{
    assert(terrain.elevations.cells@.len() == terrain.elevations.cells.len());
    if excluded_aspects.len() == 0 {
        return Raster::filled(terrain.elevations.width, terrain.elevations.height, 0);
    }
    let flow: Raster<u8> = compute_d8_flow_directions(&terrain.elevations);
    let mut runout: Raster<i32> = propagate(terrain, excluded_aspects, &flow);
    let mut pass: usize = 0;
    while pass < SPREAD_PASSES
        invariant
            pass <= SPREAD_PASSES,
            terrain.wf(),
            runout.wf() && runout.same_shape(&terrain.elevations),
            forall|r: int, c: int|
                terrain.has(r, c) ==> #[trigger] runout.at(r, c) == spread_after(
                    terrain@,
                    excluded_aspects@,
                    pass as nat,
                    r,
                    c,
                ),
        decreases SPREAD_PASSES - pass,
    {
        runout = spread_once(terrain, excluded_aspects, &runout, Ghost(pass as nat));
        pass += 1;
    }
    proof {
        assert forall|row: int, col: int| terrain.has(row, col) implies 0 <= #[trigger] runout.at(
            row,
            col,
        ) <= INITIAL_INTENSITY by {
            lemma_spread_bounds(terrain@, excluded_aspects@, SPREAD_PASSES as nat, row, col);
        }
        assert forall|row: int, col: int|
            terrain.has(row, col) && !terrain.interior(row, col) implies #[trigger] runout.at(
            row,
            col,
        ) == 0 by {
            lemma_ring_stays_clear(terrain@, excluded_aspects@, row, col);
        }
    }
    runout
}

/// Whether `(row, col)` is a release zone off the outer ring, or debris of
/// one passes it within 50 steps down the flow directions.
pub open spec fn reached(terrain: TerrainView, sectors: Seq<Aspect>, row: int, col: int) -> bool {
    exists|from_row: int, from_col: int, steps: nat|
        terrain.interior(from_row, from_col) && is_source(terrain, sectors, from_row, from_col)
            && steps <= MAX_RUNOUT_CELLS && #[trigger] walk(
            terrain.elevations,
            from_row,
            from_col,
            steps,
        ) == Some((row, col))
}

/// Where a release zone leaves something on a cell, its debris passes the
/// cell.
pub proof fn lemma_best_from_origin(
    terrain: TerrainView,
    sectors: Seq<Aspect>,
    from_row: int,
    from_col: int,
    steps: nat,
    row: int,
    col: int,
)
    requires
        best_from(terrain, sectors, from_row, from_col, steps, row, col) > 0,
    ensures
        exists|k: nat|
            1 <= k <= steps && #[trigger] walk(terrain.elevations, from_row, from_col, k) == Some(
                (row, col),
            ),
    decreases steps,
{
    if steps > 0 {
        if arrival(terrain, sectors, from_row, from_col, steps, row, col) > 0 {
            assert(walk(terrain.elevations, from_row, from_col, steps) == Some((row, col)));
        } else {
            lemma_best_from_origin(
                terrain,
                sectors,
                from_row,
                from_col,
                (steps - 1) as nat,
                row,
                col,
            );
            let k = choose|k: nat|
                1 <= k <= steps - 1 && #[trigger] walk(terrain.elevations, from_row, from_col, k)
                    == Some((row, col));
            assert(walk(terrain.elevations, from_row, from_col, k) == Some((row, col)));
        }
    }
}

/// Where a row of release zones leaves something on a cell, the cell is
/// reached.
pub proof fn lemma_best_in_row_origin(
    terrain: TerrainView,
    sectors: Seq<Aspect>,
    from_row: int,
    cols: nat,
    row: int,
    col: int,
)
    requires
        best_in_row(terrain, sectors, from_row, cols, row, col) > 0,
    ensures
        reached(terrain, sectors, row, col),
    decreases cols,
{
    if cols > 0 {
        if sent_from(terrain, sectors, from_row, cols - 1, row, col) > 0 {
            lemma_best_from_origin(
                terrain,
                sectors,
                from_row,
                cols - 1,
                MAX_RUNOUT_CELLS as nat,
                row,
                col,
            );
            let k = choose|k: nat|
                1 <= k <= MAX_RUNOUT_CELLS && #[trigger] walk(
                    terrain.elevations,
                    from_row,
                    cols - 1,
                    k,
                ) == Some((row, col));
            assert(walk(terrain.elevations, from_row, cols - 1, k) == Some((row, col)));
        } else {
            lemma_best_in_row_origin(terrain, sectors, from_row, (cols - 1) as nat, row, col);
        }
    }
}

/// Where the first rows of release zones leave something on a cell, the
/// cell is reached.
pub proof fn lemma_best_in_rows_origin(
    terrain: TerrainView,
    sectors: Seq<Aspect>,
    rows: nat,
    row: int,
    col: int,
)
    requires
        best_in_rows(terrain, sectors, rows, row, col) > 0,
    ensures
        reached(terrain, sectors, row, col),
    decreases rows,
{
    if rows > 0 {
        if best_in_row(terrain, sectors, rows - 1, terrain.elevations.width as nat, row, col) > 0 {
            lemma_best_in_row_origin(
                terrain,
                sectors,
                rows - 1,
                terrain.elevations.width as nat,
                row,
                col,
            );
        } else {
            lemma_best_in_rows_origin(terrain, sectors, (rows - 1) as nat, row, col);
        }
    }
}

/// Before the spreading a cell has intensity only where it is reached.
pub proof fn lemma_propagated_origin(
    terrain: TerrainView,
    sectors: Seq<Aspect>,
    row: int,
    col: int,
)
    requires
        propagated(terrain, sectors, row, col) > 0,
    ensures
        reached(terrain, sectors, row, col),
{
    if own_mark(terrain, sectors, row, col) > 0 {
        assert(walk(terrain.elevations, row, col, 0) == Some((row, col)));
    } else {
        lemma_best_in_rows_origin(
            terrain,
            sectors,
            terrain.elevations.height as nat,
            row,
            col,
        );
    }
}

/// The number of steps along rows and columns between two cells.
pub open spec fn grid_distance(row: int, col: int, other_row: int, other_col: int) -> int {
    (if row >= other_row {
        row - other_row
    } else {
        other_row - row
    }) + (if col >= other_col {
        col - other_col
    } else {
        other_col - col
    })
}

/// After `passes` spreading passes a cell has intensity only within
/// `passes` steps along rows and columns of a cell that had some before
/// the spreading.
pub proof fn lemma_spread_origin(
    terrain: TerrainView,
    sectors: Seq<Aspect>,
    passes: nat,
    row: int,
    col: int,
)
    requires
        spread_after(terrain, sectors, passes, row, col) > 0,
    ensures
        exists|near_row: int, near_col: int|
            grid_distance(row, col, near_row, near_col) <= passes && #[trigger] propagated(
                terrain,
                sectors,
                near_row,
                near_col,
            ) > 0,
    decreases passes,
{
    if passes == 0 {
        assert(grid_distance(row, col, row, col) <= 0 && propagated(terrain, sectors, row, col) > 0);
    } else {
        let before = (passes - 1) as nat;
        let (r, c): (int, int) = if spread_after(terrain, sectors, before, row, col) > 0 {
            (row, col)
        } else if spread_after(terrain, sectors, before, row - 1, col) > 0 {
            (row - 1, col)
        } else if spread_after(terrain, sectors, before, row + 1, col) > 0 {
            (row + 1, col)
        } else if spread_after(terrain, sectors, before, row, col - 1) > 0 {
            (row, col - 1)
        } else {
            (row, col + 1)
        };
        assert(spread_after(terrain, sectors, before, r, c) > 0);
        lemma_spread_origin(terrain, sectors, before, r, c);
        let (near_row, near_col) = choose|near_row: int, near_col: int|
            grid_distance(r, c, near_row, near_col) <= before && #[trigger] propagated(
                terrain,
                sectors,
                near_row,
                near_col,
            ) > 0;
        assert(grid_distance(row, col, near_row, near_col) <= passes && propagated(
            terrain,
            sectors,
            near_row,
            near_col,
        ) > 0);
    }
}

/// Runout is found only near the flow below a release zone: a cell with
/// runout lies within two steps along rows and columns of a cell that is a
/// release zone or that debris of one passes within 50 steps.
pub proof fn lemma_runout_origin(terrain: TerrainView, sectors: Seq<Aspect>, row: int, col: int)
    requires
        runout_at(terrain, sectors, row, col) > 0,
    ensures
        exists|near_row: int, near_col: int|
            grid_distance(row, col, near_row, near_col) <= SPREAD_PASSES && #[trigger] reached(
                terrain,
                sectors,
                near_row,
                near_col,
            ),
{
    lemma_spread_origin(terrain, sectors, SPREAD_PASSES as nat, row, col);
    let (near_row, near_col) = choose|near_row: int, near_col: int|
        grid_distance(row, col, near_row, near_col) <= SPREAD_PASSES && #[trigger] propagated(
            terrain,
            sectors,
            near_row,
            near_col,
        ) > 0;
    lemma_propagated_origin(terrain, sectors, near_row, near_col);
    assert(grid_distance(row, col, near_row, near_col) <= SPREAD_PASSES && reached(
        terrain,
        sectors,
        near_row,
        near_col,
    ));
}

/// Debris on its way is never on the outer ring.
pub proof fn lemma_walk_keeps_off_the_ring(
    elevations: Grid<i32>,
    row: int,
    col: int,
    steps: nat,
)
    requires
        steps >= 1,
        walk(elevations, row, col, steps) is Some,
    ensures
        ({
            let at = walk(elevations, row, col, steps)->0;
            elevations.inside(at.0, at.1, 1)
        }),
{
}

/// No release zone leaves anything on a cell of the outer ring.
pub proof fn lemma_best_from_off_the_ring(
    terrain: TerrainView,
    sectors: Seq<Aspect>,
    from_row: int,
    from_col: int,
    steps: nat,
    row: int,
    col: int,
)
    requires
        !terrain.interior(row, col),
    ensures
        best_from(terrain, sectors, from_row, from_col, steps, row, col) == 0,
    decreases steps,
{
    if steps > 0 {
        lemma_best_from_off_the_ring(
            terrain,
            sectors,
            from_row,
            from_col,
            (steps - 1) as nat,
            row,
            col,
        );
        if walk(terrain.elevations, from_row, from_col, steps) is Some {
            lemma_walk_keeps_off_the_ring(terrain.elevations, from_row, from_col, steps);
        }
    }
}

/// No row of release zones leaves anything on a cell of the outer ring.
pub proof fn lemma_best_in_row_off_the_ring(
    terrain: TerrainView,
    sectors: Seq<Aspect>,
    from_row: int,
    cols: nat,
    row: int,
    col: int,
)
    requires
        !terrain.interior(row, col),
    ensures
        best_in_row(terrain, sectors, from_row, cols, row, col) == 0,
    decreases cols,
{
    if cols > 0 {
        lemma_best_in_row_off_the_ring(terrain, sectors, from_row, (cols - 1) as nat, row, col);
        lemma_best_from_off_the_ring(
            terrain,
            sectors,
            from_row,
            cols - 1,
            MAX_RUNOUT_CELLS as nat,
            row,
            col,
        );
    }
}

/// Nothing reaches a cell of the outer ring from the first rows of release
/// zones.
pub proof fn lemma_best_in_rows_off_the_ring(
    terrain: TerrainView,
    sectors: Seq<Aspect>,
    rows: nat,
    row: int,
    col: int,
)
    requires
        !terrain.interior(row, col),
    ensures
        best_in_rows(terrain, sectors, rows, row, col) == 0,
    decreases rows,
{
    if rows > 0 {
        lemma_best_in_rows_off_the_ring(terrain, sectors, (rows - 1) as nat, row, col);
        lemma_best_in_row_off_the_ring(
            terrain,
            sectors,
            rows - 1,
            terrain.elevations.width as nat,
            row,
            col,
        );
    }
}

/// No spreading pass leaves anything on a cell of the outer ring.
pub proof fn lemma_spread_off_the_ring(
    terrain: TerrainView,
    sectors: Seq<Aspect>,
    passes: nat,
    row: int,
    col: int,
)
    requires
        !terrain.interior(row, col),
    ensures
        spread_after(terrain, sectors, passes, row, col) == 0,
    decreases passes,
{
    if passes == 0 {
        lemma_best_in_rows_off_the_ring(
            terrain,
            sectors,
            terrain.elevations.height as nat,
            row,
            col,
        );
    } else {
        lemma_spread_off_the_ring(terrain, sectors, (passes - 1) as nat, row, col);
    }
}

/// The outer ring stays clear: a cell of it has no runout.
pub proof fn lemma_ring_stays_clear(terrain: TerrainView, sectors: Seq<Aspect>, row: int, col: int)
    requires
        !terrain.interior(row, col),
    ensures
        runout_at(terrain, sectors, row, col) == 0,
{
    lemma_spread_off_the_ring(terrain, sectors, SPREAD_PASSES as nat, row, col);
}

} // verus!

//! How the analysis answers to a change of the whole terrain: raised by a
//! constant, or turned by a quarter.

use crate::analysis::is_analysis;
use crate::aspect::Aspect;
use crate::aspect::{FLAT_AZIMUTH, FULL_TURN};
use crate::azimuth::{
    azimuth_at, gradient_at, gradient_x, gradient_y, slope_of, stencil_sum, tap_weight,
};
use crate::flow::{drop_to, flow_direction, steepest_among};
use crate::raster::Grid;
use crate::runout::{best_from, best_in_row, best_in_rows, flow_step, spread_after, walk};
use crate::terrain::TerrainView;
use vstd::prelude::*;

verus! {

/// Whether `raised` is `elevations` with `offset` added to every cell.
pub open spec fn is_raised(elevations: Grid<i32>, raised: Grid<i32>, offset: int) -> bool {
    &&& elevations.wf()
    &&& raised.wf()
    &&& raised.width == elevations.width
    &&& raised.height == elevations.height
    &&& forall|row: int, col: int|
        elevations.has(row, col) ==> #[trigger] raised.at(row, col) == elevations.at(row, col)
            + offset
}

/// Two complete grids of one shape whose cells agree are the same grid.
pub proof fn lemma_grid_equal<T>(a: Grid<T>, b: Grid<T>)
    requires
        a.wf(),
        b.wf(),
        a.width == b.width,
        a.height == b.height,
        forall|row: int, col: int| a.has(row, col) ==> #[trigger] a.at(row, col) == b.at(row, col),
    ensures
        a == b,
{
    let width = a.width as int;
    let height = a.height as int;
    assert forall|k: int| 0 <= k < a.cells.len() implies a.cells[k] == b.cells[k] by {
        assert(width > 0) by (nonlinear_arith)
            requires
                0 <= k < width * height,
                width >= 0,
        ;
        let row = k / width;
        let col = k % width;
        assert(k == row * width + col && 0 <= col < width && 0 <= row) by (nonlinear_arith)
            requires
                width > 0,
                k >= 0,
                row == k / width,
                col == k % width,
        ;
        assert(row < height) by (nonlinear_arith)
            requires
                k == row * width + col,
                0 <= col,
                k < width * height,
                width > 0,
        ;
        assert(a.has(row, col));
        assert(a.at(row, col) == b.at(row, col));
    }
    assert(a.cells =~= b.cells);
}

/// The weights of the first `taps` taps of a stencil, added up.
pub open spec fn weight_total(north_south: bool, taps: nat) -> int
    decreases taps,
{
    if taps == 0 {
        0
    } else {
        weight_total(north_south, (taps - 1) as nat) + tap_weight(taps - 1, north_south)
    }
}

/// The weights of a stencil cancel.
pub proof fn lemma_weights_cancel(north_south: bool)
    ensures
        weight_total(north_south, 25) == 0,
{
    reveal_with_fuel(weight_total, 26);
}

/// Raising the terrain adds to a partial stencil sum the offset times the
/// weights summed so far.
pub proof fn lemma_stencil_sum_raised(
    elevations: Grid<i32>,
    raised: Grid<i32>,
    offset: int,
    row: int,
    col: int,
    north_south: bool,
    taps: nat,
)
    requires
        is_raised(elevations, raised, offset),
        elevations.inside(row, col, 2),
        taps <= 25,
    ensures
        stencil_sum(raised, row, col, north_south, taps) == stencil_sum(
            elevations,
            row,
            col,
            north_south,
            taps,
        ) + offset * weight_total(north_south, taps),
    decreases taps,
{
    if taps > 0 {
        let tap = taps - 1;
        lemma_stencil_sum_raised(elevations, raised, offset, row, col, north_south, tap as nat);
        let weight = tap_weight(tap, north_south);
        let r = row + tap / 5 - 2;
        let c = col + tap % 5 - 2;
        assert(elevations.has(r, c));
        let value = elevations.at(r, c) as int;
        assert(raised.at(r, c) == value + offset);
        assert((value + offset) * weight == value * weight + offset * weight)
            by (nonlinear_arith);
        assert(offset * (weight_total(north_south, tap as nat) + weight) == offset * weight_total(
            north_south,
            tap as nat,
        ) + offset * weight) by (nonlinear_arith);
    }
}

/// Raising the terrain changes no derivative, no azimuth and no steepness.
pub proof fn lemma_slopes_raised(
    elevations: Grid<i32>,
    raised: Grid<i32>,
    offset: int,
    bearings: Grid<i32>,
    row: int,
    col: int,
)
    requires
        is_raised(elevations, raised, offset),
    ensures
        elevations.inside(row, col, 2) ==> gradient_x(raised, row, col) == gradient_x(
            elevations,
            row,
            col,
        ) && gradient_y(raised, row, col) == gradient_y(elevations, row, col),
        azimuth_at(raised, bearings, row, col) == azimuth_at(elevations, bearings, row, col),
        gradient_at(raised, bearings, row, col) == gradient_at(elevations, bearings, row, col),
{
    if elevations.inside(row, col, 2) {
        lemma_stencil_sum_raised(elevations, raised, offset, row, col, false, 25);
        lemma_stencil_sum_raised(elevations, raised, offset, row, col, true, 25);
        lemma_weights_cancel(false);
        lemma_weights_cancel(true);
    }
}

/// Raising the terrain changes no choice among flow directions.
pub proof fn lemma_steepest_raised(
    elevations: Grid<i32>,
    raised: Grid<i32>,
    offset: int,
    row: int,
    col: int,
    count: nat,
)
    requires
        is_raised(elevations, raised, offset),
        elevations.inside(row, col, 1),
        count <= 8,
    ensures
        steepest_among(raised, row, col, count) == steepest_among(elevations, row, col, count),
        steepest_among(elevations, row, col, count) == 255 || 0 <= steepest_among(
            elevations,
            row,
            col,
            count,
        ) < count,
    decreases count,
{
    if count > 0 {
        lemma_steepest_raised(elevations, raised, offset, row, col, (count - 1) as nat);
        let dir = count - 1;
        let best = steepest_among(elevations, row, col, dir as nat);
        assert(elevations.has(row, col));
        assert(elevations.has(
            row + crate::flow::row_offset(dir),
            col + crate::flow::col_offset(dir),
        ));
        assert(drop_to(raised, row, col, dir) == drop_to(elevations, row, col, dir));
        if best != 255 {
            assert(elevations.has(
                row + crate::flow::row_offset(best),
                col + crate::flow::col_offset(best),
            ));
            assert(drop_to(raised, row, col, best) == drop_to(elevations, row, col, best));
        }
    }
}

/// Raising the terrain changes no flow direction.
pub proof fn lemma_flow_raised(
    elevations: Grid<i32>,
    raised: Grid<i32>,
    offset: int,
    row: int,
    col: int,
)
    requires
        is_raised(elevations, raised, offset),
    ensures
        flow_direction(raised, row, col) == flow_direction(elevations, row, col),
        flow_step(raised, row, col) == flow_step(elevations, row, col),
{
    if elevations.inside(row, col, 1) {
        lemma_steepest_raised(elevations, raised, offset, row, col, 8);
    }
}

/// Raising the terrain changes no path of debris.
pub proof fn lemma_walk_raised(
    elevations: Grid<i32>,
    raised: Grid<i32>,
    offset: int,
    row: int,
    col: int,
    steps: nat,
)
    requires
        is_raised(elevations, raised, offset),
    ensures
        walk(raised, row, col, steps) == walk(elevations, row, col, steps),
    decreases steps,
{
    if steps > 0 {
        lemma_walk_raised(elevations, raised, offset, row, col, (steps - 1) as nat);
        match walk(elevations, row, col, (steps - 1) as nat) {
            Some(at) => {
                lemma_flow_raised(elevations, raised, offset, at.0, at.1);
            },
            None => {},
        }
    }
}

/// The terrain `terrain` with its elevations replaced.
pub open spec fn with_elevations(terrain: TerrainView, elevations: Grid<i32>) -> TerrainView {
    TerrainView { elevations, azimuths: terrain.azimuths, gradients: terrain.gradients }
}

/// Raising the terrain changes nothing that one release zone leaves on a
/// cell.
pub proof fn lemma_best_from_raised(
    terrain: TerrainView,
    raised: Grid<i32>,
    offset: int,
    sectors: Seq<Aspect>,
    from_row: int,
    from_col: int,
    steps: nat,
    row: int,
    col: int,
)
    requires
        is_raised(terrain.elevations, raised, offset),
    ensures
        best_from(with_elevations(terrain, raised), sectors, from_row, from_col, steps, row, col)
            == best_from(terrain, sectors, from_row, from_col, steps, row, col),
    decreases steps,
{
    if steps > 0 {
        lemma_best_from_raised(
            terrain,
            raised,
            offset,
            sectors,
            from_row,
            from_col,
            (steps - 1) as nat,
            row,
            col,
        );
        lemma_walk_raised(terrain.elevations, raised, offset, from_row, from_col, steps);
    }
}

/// Raising the terrain changes nothing that a row of release zones leaves
/// on a cell.
pub proof fn lemma_best_in_row_raised(
    terrain: TerrainView,
    raised: Grid<i32>,
    offset: int,
    sectors: Seq<Aspect>,
    from_row: int,
    cols: nat,
    row: int,
    col: int,
)
    requires
        is_raised(terrain.elevations, raised, offset),
    ensures
        best_in_row(with_elevations(terrain, raised), sectors, from_row, cols, row, col)
            == best_in_row(terrain, sectors, from_row, cols, row, col),
    decreases cols,
{
    if cols > 0 {
        lemma_best_in_row_raised(
            terrain,
            raised,
            offset,
            sectors,
            from_row,
            (cols - 1) as nat,
            row,
            col,
        );
        lemma_best_from_raised(
            terrain,
            raised,
            offset,
            sectors,
            from_row,
            cols - 1,
            crate::runout::MAX_RUNOUT_CELLS as nat,
            row,
            col,
        );
    }
}

/// Raising the terrain changes nothing that the first rows of release
/// zones leave on a cell.
pub proof fn lemma_best_in_rows_raised(
    terrain: TerrainView,
    raised: Grid<i32>,
    offset: int,
    sectors: Seq<Aspect>,
    rows: nat,
    row: int,
    col: int,
)
    requires
        is_raised(terrain.elevations, raised, offset),
    ensures
        best_in_rows(with_elevations(terrain, raised), sectors, rows, row, col) == best_in_rows(
            terrain,
            sectors,
            rows,
            row,
            col,
        ),
    decreases rows,
{
    if rows > 0 {
        lemma_best_in_rows_raised(terrain, raised, offset, sectors, (rows - 1) as nat, row, col);
        lemma_best_in_row_raised(
            terrain,
            raised,
            offset,
            sectors,
            rows - 1,
            terrain.elevations.width as nat,
            row,
            col,
        );
    }
}

/// Raising the terrain changes no intensity, whatever the number of
/// spreading passes.
pub proof fn lemma_spread_raised(
    terrain: TerrainView,
    raised: Grid<i32>,
    offset: int,
    sectors: Seq<Aspect>,
    passes: nat,
    row: int,
    col: int,
)
    requires
        is_raised(terrain.elevations, raised, offset),
    ensures
        spread_after(with_elevations(terrain, raised), sectors, passes, row, col) == spread_after(
            terrain,
            sectors,
            passes,
            row,
            col,
        ),
    decreases passes,
{
    if passes == 0 {
        lemma_best_in_rows_raised(
            terrain,
            raised,
            offset,
            sectors,
            terrain.elevations.height as nat,
            row,
            col,
        );
    } else {
        let before = (passes - 1) as nat;
        lemma_spread_raised(terrain, raised, offset, sectors, before, row, col);
        lemma_spread_raised(terrain, raised, offset, sectors, before, row - 1, col);
        lemma_spread_raised(terrain, raised, offset, sectors, before, row + 1, col);
        lemma_spread_raised(terrain, raised, offset, sectors, before, row, col - 1);
        lemma_spread_raised(terrain, raised, offset, sectors, before, row, col + 1);
    }
}

/// The analysis of a terrain and the analysis of the same terrain raised by
/// a constant, made with the same bearings and for the same sectors, have
/// the same azimuths, the same steepness and the same runout.
pub proof fn lemma_offset_invariance(
    elevations: Grid<i32>,
    raised: Grid<i32>,
    offset: int,
    bearings: Grid<i32>,
    sectors: Seq<Aspect>,
    azimuths: Grid<i32>,
    gradients: Grid<i64>,
    runout: Grid<i32>,
    raised_azimuths: Grid<i32>,
    raised_gradients: Grid<i64>,
    raised_runout: Grid<i32>,
)
    requires
        is_raised(elevations, raised, offset),
        is_analysis(elevations, bearings, sectors, azimuths, gradients, runout),
        is_analysis(raised, bearings, sectors, raised_azimuths, raised_gradients, raised_runout),
    ensures
        raised_azimuths == azimuths,
        raised_gradients == gradients,
        raised_runout == runout,
{
    assert forall|row: int, col: int| azimuths.has(row, col) implies #[trigger] azimuths.at(
        row,
        col,
    ) == raised_azimuths.at(row, col) by {
        lemma_slopes_raised(elevations, raised, offset, bearings, row, col);
        assert(elevations.has(row, col) && raised.has(row, col));
    }
    lemma_grid_equal(azimuths, raised_azimuths);
    assert forall|row: int, col: int| gradients.has(row, col) implies #[trigger] gradients.at(
        row,
        col,
    ) == raised_gradients.at(row, col) by {
        lemma_slopes_raised(elevations, raised, offset, bearings, row, col);
        assert(elevations.has(row, col) && raised.has(row, col));
    }
    lemma_grid_equal(gradients, raised_gradients);
    let terrain = TerrainView { elevations, azimuths, gradients };
    assert(with_elevations(terrain, raised) == TerrainView {
        elevations: raised,
        azimuths: raised_azimuths,
        gradients: raised_gradients,
    });
    assert forall|row: int, col: int| runout.has(row, col) implies #[trigger] runout.at(row, col)
        == raised_runout.at(row, col) by {
        assert(elevations.has(row, col) && raised.has(row, col));
        lemma_spread_raised(
            terrain,
            raised,
            offset,
            sectors,
            crate::runout::SPREAD_PASSES as nat,
            row,
            col,
        );
    }
    lemma_grid_equal(runout, raised_runout);
}

/// Whether `turned` is `grid` turned clockwise by a quarter: the cell in
/// row `row` and column `col` of `turned` is the cell of `grid` in column
/// `row` and in row `col` counted from the last.
pub open spec fn is_quarter_turn<T>(grid: Grid<T>, turned: Grid<T>) -> bool {
    &&& grid.wf()
    &&& turned.wf()
    &&& turned.width == grid.height
    &&& turned.height == grid.width
    &&& forall|row: int, col: int|
        turned.has(row, col) ==> #[trigger] turned.at(row, col) == grid.at(
            grid.height - 1 - col,
            row,
        )
}

/// The elevation `a` rows below and `b` columns right of `(row, col)`.
#[verifier::opaque]
pub open spec fn tap(grid: Grid<i32>, row: int, col: int, a: int, b: int) -> int {
    grid.at(row + a, col + b) as int
}

/// The east-west stencil written out: each column of the window against
/// the column opposite.
pub open spec fn east_west_sum(g: Grid<i32>, r: int, c: int) -> int {
    5 * (tap(g, r, c, -2, 2) - tap(g, r, c, -2, -2)) + 4 * (tap(g, r, c, -2, 1) - tap(
        g,
        r,
        c,
        -2,
        -1,
    )) + 8 * (tap(g, r, c, -1, 2) - tap(g, r, c, -1, -2)) + 10 * (tap(g, r, c, -1, 1) - tap(
        g,
        r,
        c,
        -1,
        -1,
    )) + 10 * (tap(g, r, c, 0, 2) - tap(g, r, c, 0, -2)) + 20 * (tap(g, r, c, 0, 1) - tap(
        g,
        r,
        c,
        0,
        -1,
    )) + 8 * (tap(g, r, c, 1, 2) - tap(g, r, c, 1, -2)) + 10 * (tap(g, r, c, 1, 1) - tap(
        g,
        r,
        c,
        1,
        -1,
    )) + 5 * (tap(g, r, c, 2, 2) - tap(g, r, c, 2, -2)) + 4 * (tap(g, r, c, 2, 1) - tap(
        g,
        r,
        c,
        2,
        -1,
    ))
}

/// The north-south stencil written out: each row of the window against the
/// row opposite.
pub open spec fn north_south_sum(g: Grid<i32>, r: int, c: int) -> int {
    5 * (tap(g, r, c, 2, -2) - tap(g, r, c, -2, -2)) + 4 * (tap(g, r, c, 1, -2) - tap(
        g,
        r,
        c,
        -1,
        -2,
    )) + 8 * (tap(g, r, c, 2, -1) - tap(g, r, c, -2, -1)) + 10 * (tap(g, r, c, 1, -1) - tap(
        g,
        r,
        c,
        -1,
        -1,
    )) + 10 * (tap(g, r, c, 2, 0) - tap(g, r, c, -2, 0)) + 20 * (tap(g, r, c, 1, 0) - tap(
        g,
        r,
        c,
        -1,
        0,
    )) + 8 * (tap(g, r, c, 2, 1) - tap(g, r, c, -2, 1)) + 10 * (tap(g, r, c, 1, 1) - tap(
        g,
        r,
        c,
        -1,
        1,
    )) + 5 * (tap(g, r, c, 2, 2) - tap(g, r, c, -2, 2)) + 4 * (tap(g, r, c, 1, 2) - tap(
        g,
        r,
        c,
        -1,
        2,
    ))
}

/// One more tap adds its elevation times its weight to a stencil sum.
pub proof fn lemma_tap_added(
    grid: Grid<i32>,
    row: int,
    col: int,
    north_south: bool,
    taps: nat,
    weight: int,
)
    requires
        1 <= taps <= 25,
        weight == tap_weight(taps - 1, north_south),
    ensures
        stencil_sum(grid, row, col, north_south, taps) == stencil_sum(
            grid,
            row,
            col,
            north_south,
            (taps - 1) as nat,
        ) + weight * tap(grid, row, col, (taps - 1) / 5 - 2, (taps - 1) % 5 - 2),
{
    reveal(tap);
    assert(grid.at(row + (taps - 1) / 5 - 2, col + (taps - 1) % 5 - 2) * weight == weight
        * grid.at(row + (taps - 1) / 5 - 2, col + (taps - 1) % 5 - 2)) by (nonlinear_arith);
}

/// The derivatives are the stencils written out.
pub proof fn lemma_stencils_written_out(grid: Grid<i32>, row: int, col: int)
    ensures
        gradient_x(grid, row, col) == east_west_sum(grid, row, col),
        gradient_y(grid, row, col) == north_south_sum(grid, row, col),
{
    lemma_tap_added(grid, row, col, false, 1, -5);
    lemma_tap_added(grid, row, col, false, 2, -4);
    lemma_tap_added(grid, row, col, false, 3, 0);
    lemma_tap_added(grid, row, col, false, 4, 4);
    lemma_tap_added(grid, row, col, false, 5, 5);
    lemma_tap_added(grid, row, col, false, 6, -8);
    lemma_tap_added(grid, row, col, false, 7, -10);
    lemma_tap_added(grid, row, col, false, 8, 0);
    lemma_tap_added(grid, row, col, false, 9, 10);
    lemma_tap_added(grid, row, col, false, 10, 8);
    lemma_tap_added(grid, row, col, false, 11, -10);
    lemma_tap_added(grid, row, col, false, 12, -20);
    lemma_tap_added(grid, row, col, false, 13, 0);
    lemma_tap_added(grid, row, col, false, 14, 20);
    lemma_tap_added(grid, row, col, false, 15, 10);
    lemma_tap_added(grid, row, col, false, 16, -8);
    lemma_tap_added(grid, row, col, false, 17, -10);
    lemma_tap_added(grid, row, col, false, 18, 0);
    lemma_tap_added(grid, row, col, false, 19, 10);
    lemma_tap_added(grid, row, col, false, 20, 8);
    lemma_tap_added(grid, row, col, false, 21, -5);
    lemma_tap_added(grid, row, col, false, 22, -4);
    lemma_tap_added(grid, row, col, false, 23, 0);
    lemma_tap_added(grid, row, col, false, 24, 4);
    lemma_tap_added(grid, row, col, false, 25, 5);
    lemma_tap_added(grid, row, col, true, 1, -5);
    lemma_tap_added(grid, row, col, true, 2, -8);
    lemma_tap_added(grid, row, col, true, 3, -10);
    lemma_tap_added(grid, row, col, true, 4, -8);
    lemma_tap_added(grid, row, col, true, 5, -5);
    lemma_tap_added(grid, row, col, true, 6, -4);
    lemma_tap_added(grid, row, col, true, 7, -10);
    lemma_tap_added(grid, row, col, true, 8, -20);
    lemma_tap_added(grid, row, col, true, 9, -10);
    lemma_tap_added(grid, row, col, true, 10, -4);
    lemma_tap_added(grid, row, col, true, 11, 0);
    lemma_tap_added(grid, row, col, true, 12, 0);
    lemma_tap_added(grid, row, col, true, 13, 0);
    lemma_tap_added(grid, row, col, true, 14, 0);
    lemma_tap_added(grid, row, col, true, 15, 0);
    lemma_tap_added(grid, row, col, true, 16, 4);
    lemma_tap_added(grid, row, col, true, 17, 10);
    lemma_tap_added(grid, row, col, true, 18, 20);
    lemma_tap_added(grid, row, col, true, 19, 10);
    lemma_tap_added(grid, row, col, true, 20, 4);
    lemma_tap_added(grid, row, col, true, 21, 5);
    lemma_tap_added(grid, row, col, true, 22, 8);
    lemma_tap_added(grid, row, col, true, 23, 10);
    lemma_tap_added(grid, row, col, true, 24, 8);
    lemma_tap_added(grid, row, col, true, 25, 5);
}

/// A cell of the window of the turned terrain is the cell of the window of
/// the terrain, turned back.
pub proof fn lemma_tap_turned(
    elevations: Grid<i32>,
    turned: Grid<i32>,
    row: int,
    col: int,
    a: int,
    b: int,
)
    requires
        is_quarter_turn(elevations, turned),
        turned.inside(row, col, 2),
        -2 <= a <= 2,
        -2 <= b <= 2,
    ensures
        tap(turned, row, col, a, b) == tap(elevations, elevations.height - 1 - col, row, -b, a),
{
    reveal(tap);
    assert(turned.has(row + a, col + b));
    assert(turned.at(row + a, col + b) == elevations.at(
        elevations.height - 1 - (col + b),
        row + a,
    ));
}

/// Turning the terrain clockwise by a quarter turns the pair of derivatives
/// with it: the east-west one becomes the north-south one negated, the
/// north-south one becomes the east-west one.
pub proof fn lemma_gradients_turned(
    elevations: Grid<i32>,
    turned: Grid<i32>,
    row: int,
    col: int,
)
    requires
        is_quarter_turn(elevations, turned),
        turned.inside(row, col, 2),
    ensures
        elevations.inside(elevations.height - 1 - col, row, 2),
        gradient_x(turned, row, col) == -gradient_y(elevations, elevations.height - 1 - col, row),
        gradient_y(turned, row, col) == gradient_x(elevations, elevations.height - 1 - col, row),
{
    lemma_stencils_written_out(turned, row, col);
    lemma_stencils_written_out(elevations, elevations.height - 1 - col, row);
    lemma_tap_turned(elevations, turned, row, col, -2, -2);
    lemma_tap_turned(elevations, turned, row, col, -2, -1);
    lemma_tap_turned(elevations, turned, row, col, -2, 0);
    lemma_tap_turned(elevations, turned, row, col, -2, 1);
    lemma_tap_turned(elevations, turned, row, col, -2, 2);
    lemma_tap_turned(elevations, turned, row, col, -1, -2);
    lemma_tap_turned(elevations, turned, row, col, -1, -1);
    lemma_tap_turned(elevations, turned, row, col, -1, 0);
    lemma_tap_turned(elevations, turned, row, col, -1, 1);
    lemma_tap_turned(elevations, turned, row, col, -1, 2);
    lemma_tap_turned(elevations, turned, row, col, 0, -2);
    lemma_tap_turned(elevations, turned, row, col, 0, -1);
    lemma_tap_turned(elevations, turned, row, col, 0, 1);
    lemma_tap_turned(elevations, turned, row, col, 0, 2);
    lemma_tap_turned(elevations, turned, row, col, 1, -2);
    lemma_tap_turned(elevations, turned, row, col, 1, -1);
    lemma_tap_turned(elevations, turned, row, col, 1, 0);
    lemma_tap_turned(elevations, turned, row, col, 1, 1);
    lemma_tap_turned(elevations, turned, row, col, 1, 2);
    lemma_tap_turned(elevations, turned, row, col, 2, -2);
    lemma_tap_turned(elevations, turned, row, col, 2, -1);
    lemma_tap_turned(elevations, turned, row, col, 2, 0);
    lemma_tap_turned(elevations, turned, row, col, 2, 1);
    lemma_tap_turned(elevations, turned, row, col, 2, 2);
}

/// Turning the terrain clockwise by a quarter leaves the steepness of each
/// cell within the two-cell frame as it was and, where the bearings are
/// turned with it, adds a quarter turn to its azimuth; a flat cell stays
/// flat.
pub proof fn lemma_quarter_turn(
    elevations: Grid<i32>,
    bearings: Grid<i32>,
    turned: Grid<i32>,
    turned_bearings: Grid<i32>,
    row: int,
    col: int,
)
    requires
        is_quarter_turn(elevations, turned),
        turned.inside(row, col, 2),
        turned_bearings.at(row, col) as int % (FULL_TURN as int) == (bearings.at(
            elevations.height - 1 - col,
            row,
        ) + FULL_TURN / 4) % (FULL_TURN as int),
    ensures
        gradient_at(turned, turned_bearings, row, col) == gradient_at(
            elevations,
            bearings,
            elevations.height - 1 - col,
            row,
        ),
        azimuth_at(turned, turned_bearings, row, col) == if azimuth_at(
            elevations,
            bearings,
            elevations.height - 1 - col,
            row,
        ) == FLAT_AZIMUTH {
            FLAT_AZIMUTH as int
        } else {
            (azimuth_at(elevations, bearings, elevations.height - 1 - col, row) + FULL_TURN / 4) % (
            FULL_TURN as int)
        },
{
    lemma_gradients_turned(elevations, turned, row, col);
    let r = elevations.height - 1 - col;
    let gx = gradient_x(elevations, r, row);
    let gy = gradient_y(elevations, r, row);
    assert((-gy) * (-gy) + gx * gx == gx * gx + gy * gy) by (nonlinear_arith);
    assert(slope_of(-gy, gx) == slope_of(gx, gy));
    let b = bearings.at(r, row) as int;
    assert(((b % 360000) + 90000) % 360000 == (b + 90000) % 360000) by (nonlinear_arith);
}

} // verus!

//! Steepest-descent flow directions on the 8-connected grid.

use crate::raster::{Grid, Raster};
use vstd::prelude::*;

verus! {

/// The direction of a cell that drains nowhere.
pub const NO_FLOW: u8 = 255;

/// The row offset of direction `dir`, counted clockwise from north:
/// N, NE, E, SE, S, SW, W, NW.
pub open spec fn row_offset(dir: int) -> int {
    if dir == 0 || dir == 1 || dir == 7 {
        -1
    } else if dir == 3 || dir == 4 || dir == 5 {
        1
    } else {
        0
    }
}

/// The column offset of direction `dir`.
pub open spec fn col_offset(dir: int) -> int {
    if dir == 1 || dir == 2 || dir == 3 {
        1
    } else if dir == 5 || dir == 6 || dir == 7 {
        -1
    } else {
        0
    }
}

/// How far the neighbour in direction `dir` lies below the cell.
pub open spec fn drop_to(elevations: Grid<i32>, row: int, col: int, dir: int) -> int {
    elevations.at(row, col) - elevations.at(row + row_offset(dir), col + col_offset(dir))
}

/// The slope towards the neighbour in direction `dir`, on a scale on which
/// slopes compare: the drop over the distance, which is 1 along a row or a
/// column and 1.414 along a diagonal, times 1414.
pub open spec fn descent(elevations: Grid<i32>, row: int, col: int, dir: int) -> int {
    drop_to(elevations, row, col, dir) * if dir % 2 == 0 {
        1414int
    } else {
        1000int
    }
}

/// The direction chosen among the first `count` directions: the steepest
/// one that goes down, the earliest of equals, or `NO_FLOW`.
pub open spec fn steepest_among(elevations: Grid<i32>, row: int, col: int, count: nat) -> int
    decreases count,
{
    if count == 0 {
        NO_FLOW as int
    } else {
        let dir = count - 1;
        let best = steepest_among(elevations, row, col, dir as nat);
        if drop_to(elevations, row, col, dir) > 0 && (best == NO_FLOW || descent(
            elevations,
            row,
            col,
            dir,
        ) > descent(elevations, row, col, best)) {
            dir
        } else {
            best
        }
    }
}

/// The flow direction of a cell: none on the outer ring of the grid.
pub open spec fn flow_direction(elevations: Grid<i32>, row: int, col: int) -> int {
    if elevations.inside(row, col, 1) {
        steepest_among(elevations, row, col, 8)
    } else {
        NO_FLOW as int
    }
}

/// What the choice among the first `count` directions amounts to: either no
/// neighbour among them lies lower, or the chosen one lies strictly lower,
/// none of them is steeper, and none before it is as steep.
pub proof fn lemma_steepest_among(elevations: Grid<i32>, row: int, col: int, count: nat)
    requires
        count <= 8,
    ensures
        ({
            let best = steepest_among(elevations, row, col, count);
            if best == NO_FLOW {
                forall|dir: int| 0 <= dir < count ==> drop_to(elevations, row, col, dir) <= 0
            } else {
                &&& 0 <= best < count
                &&& drop_to(elevations, row, col, best) > 0
                &&& forall|dir: int|
                    0 <= dir < count && drop_to(elevations, row, col, dir) > 0 ==> descent(
                        elevations,
                        row,
                        col,
                        dir,
                    ) <= descent(elevations, row, col, best)
                &&& forall|dir: int|
                    0 <= dir < best && drop_to(elevations, row, col, dir) > 0 ==> descent(
                        elevations,
                        row,
                        col,
                        dir,
                    ) < descent(elevations, row, col, best)
            }
        }),
    decreases count,
{
    if count > 0 {
        lemma_steepest_among(elevations, row, col, (count - 1) as nat);
    }
}

/// The cell next to `(row, col)` in direction `dir`.
pub fn neighbour(row: usize, col: usize, dir: u8) -> (cell: (usize, usize))
    requires
        dir < 8,
        1 <= row < usize::MAX,
        1 <= col < usize::MAX,
    ensures
        cell.0 == row + row_offset(dir as int),
        cell.1 == col + col_offset(dir as int),
{
    let next_row: usize = if dir == 0 || dir == 1 || dir == 7 {
        row - 1
    } else if dir == 3 || dir == 4 || dir == 5 {
        row + 1
    } else {
        row
    };
    let next_col: usize = if dir == 1 || dir == 2 || dir == 3 {
        col + 1
    } else if dir == 5 || dir == 6 || dir == 7 {
        col - 1
    } else {
        col
    };
    (next_row, next_col)
}

/// Chooses the flow direction of one interior cell.
fn steepest_direction(elevations: &Raster<i32>, row: usize, col: usize) -> (dir: u8)
    requires
        elevations.wf(),
        elevations.inside(row as int, col as int, 1),
    ensures
        dir == flow_direction(elevations@, row as int, col as int),
{
    let centre: i64 = elevations.get(row, col) as i64;
    let mut best: u8 = NO_FLOW;
    let mut steepest: i64 = 0;
    let mut dir: u8 = 0;
    while dir < 8
        invariant
            dir <= 8,
            elevations.wf(),
            elevations.inside(row as int, col as int, 1),
            centre == elevations.at(row as int, col as int),
            best == steepest_among(elevations@, row as int, col as int, dir as nat),
            best != NO_FLOW ==> best < 8 && steepest == descent(
                elevations@,
                row as int,
                col as int,
                best as int,
            ),
        decreases 8 - dir,
    {
        let (next_row, next_col) = neighbour(row, col, dir);
        let drop: i64 = centre - elevations.get(next_row, next_col) as i64;
        if drop > 0 {
            let slope: i64 = if dir % 2 == 0 {
                drop * 1414
            } else {
                drop * 1000
            };
            if best == NO_FLOW || slope > steepest {
                steepest = slope;
                best = dir;
            }
        }
        dir += 1;
    }
    best
}

/// The flow direction of every cell: towards the steepest of the neighbours
/// that lie lower, `NO_FLOW` where there is none and on the outer ring.
pub fn compute_d8_flow_directions(elevations: &Raster<i32>) -> (flow: Raster<u8>)
    requires
        elevations.wf(),
    ensures
        flow.wf(),
        flow.same_shape(elevations),
        forall|row: int, col: int|
            elevations.has(row, col) ==> #[trigger] flow.at(row, col) == flow_direction(
                elevations@,
                row,
                col,
            ),
        forall|row: int, col: int|
            elevations.has(row, col) ==> (#[trigger] flow.at(row, col) == NO_FLOW || (flow.at(
                row,
                col,
            ) < 8 && elevations.inside(row, col, 1) && elevations.at(
                row + row_offset(flow.at(row, col) as int),
                col + col_offset(flow.at(row, col) as int),
            ) < elevations.at(row, col))),
{
    let width: usize = elevations.width;
    let height: usize = elevations.height;
    assert(elevations.cells@.len() == elevations.cells.len());
    let mut flow: Raster<u8> = Raster::filled(width, height, NO_FLOW);
    if height >= 3 && width >= 3 {
        let mut row: usize = 1;
        while row < height - 1
            invariant
                1 <= row <= height - 1,
                width >= 3,
                elevations.wf(),
                width == elevations.width,
                height == elevations.height,
                flow.wf() && flow.same_shape(elevations),
                forall|r: int, c: int|
                    elevations.has(r, c) ==> #[trigger] flow.at(r, c) == if r < row {
                        flow_direction(elevations@, r, c)
                    } else {
                        NO_FLOW as int
                    },
            decreases height - row,
        {
            let mut col: usize = 1;
            while col < width - 1
                invariant
                    1 <= row < height - 1,
                    1 <= col <= width - 1,
                    elevations.wf(),
                    width == elevations.width,
                    height == elevations.height,
                    flow.wf() && flow.same_shape(elevations),
                    forall|r: int, c: int|
                        elevations.has(r, c) ==> #[trigger] flow.at(r, c) == if r < row || (r == row
                            && c < col) {
                            flow_direction(elevations@, r, c)
                        } else {
                            NO_FLOW as int
                        },
                decreases width - col,
            {
                let dir: u8 = steepest_direction(elevations, row, col);
                flow.set(row, col, dir);
                col += 1;
            }
            row += 1;
        }
    }
    proof {
        assert forall|row: int, col: int| elevations.has(row, col) implies (#[trigger] flow.at(
            row,
            col,
        ) == NO_FLOW || (flow.at(row, col) < 8 && elevations.inside(row, col, 1) && elevations.at(
            row + row_offset(flow.at(row, col) as int),
            col + col_offset(flow.at(row, col) as int),
        ) < elevations.at(row, col))) by {
            lemma_steepest_among(elevations@, row, col, 8);
        }
    }
    flow
}

} // verus!

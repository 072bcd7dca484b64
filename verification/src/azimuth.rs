//! Slope direction and steepness from a 5x5 Sobel stencil.

use crate::aspect::{FLAT_AZIMUTH, FULL_TURN};
use crate::raster::{Grid, Raster};
use crate::sqrt::{floor_sqrt, integer_sqrt, is_floor_sqrt, lemma_floor_sqrt_exists, lemma_floor_sqrt_is};
use vstd::prelude::*;

verus! {

/// A bound on the absolute value of a stencil sum: 25 taps, each of weight
/// at most 20, on elevations of at most 2^31 in absolute value.
pub const GRADIENT_LIMIT: i64 = 1073741824000;

/// The weight of the east-west stencil in its row `ki` and column `kj`:
///
/// ```text
///  -5  -4   0   4   5
///  -8 -10   0  10   8
/// -10 -20   0  20  10
///  -8 -10   0  10   8
///  -5  -4   0   4   5
/// ```
pub open spec fn kernel_x(ki: int, kj: int) -> int {
    let outer: int = if ki == 2 {
        10
    } else if ki == 1 || ki == 3 {
        8
    } else {
        5
    };
    let inner: int = if ki == 2 {
        20
    } else if ki == 1 || ki == 3 {
        10
    } else {
        4
    };
    if kj == 0 {
        -outer
    } else if kj == 1 {
        -inner
    } else if kj == 3 {
        inner
    } else if kj == 4 {
        outer
    } else {
        0
    }
}

/// The weight of the north-south stencil, the transpose of the east-west
/// one: negative to the north, positive to the south.
pub open spec fn kernel_y(ki: int, kj: int) -> int {
    kernel_x(kj, ki)
}

/// The weight of tap number `tap` (row by row through the 5x5 window) of
/// the east-west stencil, or of the north-south one.
pub open spec fn tap_weight(tap: int, north_south: bool) -> int {
    if north_south {
        kernel_y(tap / 5, tap % 5)
    } else {
        kernel_x(tap / 5, tap % 5)
    }
}

/// The sum over the first `taps` taps of the window centred on
/// `(row, col)`, each elevation times its weight.
pub open spec fn stencil_sum(
    elevations: Grid<i32>,
    row: int,
    col: int,
    north_south: bool,
    taps: nat,
) -> int
    decreases taps,
{
    if taps == 0 {
        0
    } else {
        let tap = taps - 1;
        stencil_sum(elevations, row, col, north_south, tap as nat) + elevations.at(
            row + tap / 5 - 2,
            col + tap % 5 - 2,
        ) * tap_weight(tap, north_south)
    }
}

/// The east-west derivative at `(row, col)`: all 25 taps of the east-west
/// stencil.
pub open spec fn gradient_x(elevations: Grid<i32>, row: int, col: int) -> int {
    stencil_sum(elevations, row, col, false, 25)
}

/// The north-south derivative at `(row, col)`.
pub open spec fn gradient_y(elevations: Grid<i32>, row: int, col: int) -> int {
    stencil_sum(elevations, row, col, true, 25)
}

/// The azimuth of a cell with derivatives `gx` and `gy`, where `bearing` is
/// the angle of the vector `(-gx, gy)` clockwise from north: flat where both
/// derivatives vanish, else the bearing brought into the full turn.
pub open spec fn azimuth_of(gx: int, gy: int, bearing: int) -> int {
    if gx == 0 && gy == 0 {
        FLAT_AZIMUTH as int
    } else {
        bearing % (FULL_TURN as int)
    }
}

/// The steepness of a cell with derivatives `gx` and `gy`, in millionths:
/// the length of `(gx, gy)` over the stencil's weight (68) times the cell
/// size (10 m) times the elevation units in a metre (1000), rounded down.
/// A million over 680000 is 25/17.
pub open spec fn slope_of(gx: int, gy: int) -> int {
    floor_sqrt(((gx * gx + gy * gy) * 625) / 289)
}

/// The steepness recorded for a cell with the given azimuth.
pub open spec fn gradient_of(gx: int, gy: int, azimuth: int) -> int {
    if azimuth == FLAT_AZIMUTH {
        0
    } else {
        slope_of(gx, gy)
    }
}

/// The steepness is zero exactly where both derivatives vanish.
pub proof fn lemma_slope_zero_iff_level(gx: int, gy: int)
    ensures
        slope_of(gx, gy) >= 0,
        slope_of(gx, gy) == 0 <==> (gx == 0 && gy == 0),
{
    let n = gx * gx + gy * gy;
    assert(n >= 0 && (n == 0 <==> (gx == 0 && gy == 0))) by (nonlinear_arith)
        requires
            n == gx * gx + gy * gy,
    ;
    let scaled = (n * 625) / 289;
    lemma_floor_sqrt_exists(scaled);
    if n == 0 {
        assert(is_floor_sqrt(0, 0));
        lemma_floor_sqrt_is(0, 0);
    } else {
        assert(scaled >= 1);
        let root = floor_sqrt(scaled);
        if root == 0 {
            assert((root + 1) * (root + 1) == 1) by (nonlinear_arith)
                requires
                    root == 0,
            ;
        }
    }
}

/// The weight of one stencil tap.
fn kernel_weight(tap: usize, north_south: bool) -> (weight: i64)
    requires
        tap < 25,
    ensures
        weight == tap_weight(tap as int, north_south),
        -20 <= weight <= 20,
{
    let (ki, kj): (usize, usize) = if north_south {
        (tap % 5, tap / 5)
    } else {
        (tap / 5, tap % 5)
    };
    let outer: i64 = if ki == 2 {
        10
    } else if ki == 1 || ki == 3 {
        8
    } else {
        5
    };
    let inner: i64 = if ki == 2 {
        20
    } else if ki == 1 || ki == 3 {
        10
    } else {
        4
    };
    if kj == 0 {
        -outer
    } else if kj == 1 {
        -inner
    } else if kj == 3 {
        inner
    } else if kj == 4 {
        outer
    } else {
        0
    }
}

/// Applies one stencil to the window centred on an interior cell.
fn convolve(elevations: &Raster<i32>, row: usize, col: usize, north_south: bool) -> (sum: i64)
    requires
        elevations.wf(),
        elevations.inside(row as int, col as int, 2),
    ensures
        sum == stencil_sum(elevations@, row as int, col as int, north_south, 25),
        -GRADIENT_LIMIT <= sum <= GRADIENT_LIMIT,
{
    let mut sum: i64 = 0;
    let mut tap: usize = 0;
    while tap < 25
        invariant
            tap <= 25,
            elevations.wf(),
            elevations.inside(row as int, col as int, 2),
            sum == stencil_sum(elevations@, row as int, col as int, north_south, tap as nat),
            -(tap * 42949672960) <= sum <= tap * 42949672960,
        decreases 25 - tap,
    {
        let weight: i64 = kernel_weight(tap, north_south);
        let value: i64 = elevations.get(row - 2 + tap / 5, col - 2 + tap % 5) as i64;
        assert(-42949672960 <= value * weight <= 42949672960) by (nonlinear_arith)
            requires
                -0x8000_0000 <= value <= 0x8000_0000,
                -20 <= weight <= 20,
        ;
        sum = sum + value * weight;
        tap += 1;
    }
    sum
}

/// The azimuth of cell `(row, col)`: zero on the two-cell frame that the
/// stencil cannot reach, else what the derivatives and the cell's bearing
/// give.
pub open spec fn azimuth_at(
    elevations: Grid<i32>,
    bearings: Grid<i32>,
    row: int,
    col: int,
) -> int {
    if elevations.inside(row, col, 2) {
        azimuth_of(
            gradient_x(elevations, row, col),
            gradient_y(elevations, row, col),
            bearings.at(row, col) as int,
        )
    } else {
        0
    }
}

/// The steepness of cell `(row, col)`: zero on the two-cell frame and on
/// flat cells.
pub open spec fn gradient_at(
    elevations: Grid<i32>,
    bearings: Grid<i32>,
    row: int,
    col: int,
) -> int {
    if elevations.inside(row, col, 2) {
        gradient_of(
            gradient_x(elevations, row, col),
            gradient_y(elevations, row, col),
            azimuth_at(elevations, bearings, row, col),
        )
    } else {
        0
    }
}

/// Within the frame a cell has the flat azimuth exactly when its steepness
/// is zero.
pub proof fn lemma_flat_iff_level(
    elevations: Grid<i32>,
    bearings: Grid<i32>,
    row: int,
    col: int,
)
    requires
        elevations.inside(row, col, 2),
    ensures
        azimuth_at(elevations, bearings, row, col) == FLAT_AZIMUTH <==> gradient_at(
            elevations,
            bearings,
            row,
            col,
        ) == 0,
        azimuth_at(elevations, bearings, row, col) == FLAT_AZIMUTH || 0 <= azimuth_at(
            elevations,
            bearings,
            row,
            col,
        ) < FULL_TURN,
        gradient_at(elevations, bearings, row, col) >= 0,
{
    lemma_slope_zero_iff_level(gradient_x(elevations, row, col), gradient_y(elevations, row, col));
}

/// Brings a bearing into the full turn and marks a cell without slope as
/// flat. `bearing` is the angle of `(-gx, gy)` clockwise from north, in
/// thousandths of a degree; it is not read where both derivatives vanish.
pub fn calculate_azimuth(gx: i64, gy: i64, bearing: i32) -> (azimuth: i32)
    ensures
        azimuth == azimuth_of(gx as int, gy as int, bearing as int),
        azimuth == FLAT_AZIMUTH <==> (gx == 0 && gy == 0),
        azimuth == FLAT_AZIMUTH || 0 <= azimuth < FULL_TURN,
{
    if gx == 0 && gy == 0 {
        return FLAT_AZIMUTH;
    }
    if bearing >= 0 {
        bearing % FULL_TURN
    } else {
        let back: i64 = -(bearing as i64);
        let rest: i64 = back % (FULL_TURN as i64);
        assert(bearing as int == (-(back / 360000) - 1) * 360000 + (360000 - rest));
        if rest == 0 {
            assert(bearing as int % 360000 == 0) by (nonlinear_arith)
                requires
                    bearing as int == (-(back / 360000)) * 360000,
            ;
            0
        } else {
            assert(bearing as int % 360000 == 360000 - rest) by (nonlinear_arith)
                requires
                    bearing as int == (-(back / 360000) - 1) * 360000 + (360000 - rest),
                    0 < rest < 360000,
            ;
            (FULL_TURN as i64 - rest) as i32
        }
    }
}

/// The steepness of a cell from its derivatives; zero for a flat cell.
pub fn compute_gradient_along_azimuth(gx: i64, gy: i64, azimuth: i32) -> (gradient: i64)
    requires
        -GRADIENT_LIMIT <= gx <= GRADIENT_LIMIT,
        -GRADIENT_LIMIT <= gy <= GRADIENT_LIMIT,
    ensures
        gradient == gradient_of(gx as int, gy as int, azimuth as int),
        gradient >= 0,
{
    if azimuth == FLAT_AZIMUTH {
        return 0;
    }
    let ax: u128 = if gx >= 0 {
        gx as u128
    } else {
        (-gx) as u128
    };
    let ay: u128 = if gy >= 0 {
        gy as u128
    } else {
        (-gy) as u128
    };
    assert(ax * ax == gx * gx && ax * ax <= 1073741824000 * 1073741824000) by (nonlinear_arith)
        requires
            ax == gx || ax == -gx,
            0 <= ax <= 1073741824000,
    ;
    assert(ay * ay == gy * gy && ay * ay <= 1073741824000 * 1073741824000) by (nonlinear_arith)
        requires
            ay == gy || ay == -gy,
            0 <= ay <= 1073741824000,
    ;
    let squares: u128 = ax * ax + ay * ay;
    let scaled: u128 = (squares * 625) / 289;
    let root: u64 = integer_sqrt(scaled);
    assert(root * root <= scaled);
    assert(root < 0x4000_0000_0000_0000) by (nonlinear_arith)
        requires
            root * root <= scaled,
            scaled <= 0x1000_0000_0000_0000_0000_0000,
            root >= 0,
    ;
    root as i64
}

/// The two derivatives of every cell: the stencil sums within the two-cell
/// frame, zero on it.
pub fn sobel_gradients(elevations: &Raster<i32>) -> (field: (Raster<i64>, Raster<i64>))
    requires
        elevations.wf(),
    ensures
        field.0.wf() && field.0.same_shape(elevations),
        field.1.wf() && field.1.same_shape(elevations),
        forall|row: int, col: int|
            elevations.has(row, col) ==> #[trigger] field.0.at(row, col) == if elevations.inside(
                row,
                col,
                2,
            ) {
                gradient_x(elevations@, row, col)
            } else {
                0
            },
        forall|row: int, col: int|
            elevations.has(row, col) ==> #[trigger] field.1.at(row, col) == if elevations.inside(
                row,
                col,
                2,
            ) {
                gradient_y(elevations@, row, col)
            } else {
                0
            },
{
    let width: usize = elevations.width;
    let height: usize = elevations.height;
    assert(elevations.cells@.len() == elevations.cells.len());
    let mut east_west: Raster<i64> = Raster::filled(width, height, 0);
    let mut north_south: Raster<i64> = Raster::filled(width, height, 0);
    if height < 5 || width < 5 {
        return (east_west, north_south);
    }
    let mut row: usize = 2;
    while row < height - 2
        invariant
            2 <= row <= height - 2,
            width >= 5,
            elevations.wf(),
            width == elevations.width,
            height == elevations.height,
            east_west.wf() && east_west.same_shape(elevations),
            north_south.wf() && north_south.same_shape(elevations),
            forall|r: int, c: int|
                elevations.has(r, c) ==> #[trigger] east_west.at(r, c) == if elevations.inside(
                    r,
                    c,
                    2,
                ) && r < row {
                    gradient_x(elevations@, r, c)
                } else {
                    0
                },
            forall|r: int, c: int|
                elevations.has(r, c) ==> #[trigger] north_south.at(r, c) == if elevations.inside(
                    r,
                    c,
                    2,
                ) && r < row {
                    gradient_y(elevations@, r, c)
                } else {
                    0
                },
        decreases height - row,
    {
        let mut col: usize = 2;
        while col < width - 2
            invariant
                2 <= row < height - 2,
                2 <= col <= width - 2,
                elevations.wf(),
                width == elevations.width,
                height == elevations.height,
                east_west.wf() && east_west.same_shape(elevations),
                north_south.wf() && north_south.same_shape(elevations),
                forall|r: int, c: int|
                    elevations.has(r, c) ==> #[trigger] east_west.at(r, c) == if elevations.inside(
                        r,
                        c,
                        2,
                    ) && (r < row || (r == row && c < col)) {
                        gradient_x(elevations@, r, c)
                    } else {
                        0
                    },
                forall|r: int, c: int|
                    elevations.has(r, c) ==> #[trigger] north_south.at(r, c)
                        == if elevations.inside(r, c, 2) && (r < row || (r == row && c < col)) {
                        gradient_y(elevations@, r, c)
                    } else {
                        0
                    },
            decreases width - col,
        {
            let gx: i64 = convolve(elevations, row, col, false);
            let gy: i64 = convolve(elevations, row, col, true);
            east_west.set(row, col, gx);
            north_south.set(row, col, gy);
            col += 1;
        }
        row += 1;
    }
    (east_west, north_south)
}

/// The azimuth and the steepness of every cell. `bearings` gives, for each
/// cell with a slope, the angle of `(-gx, gy)` clockwise from north in
/// thousandths of a degree, where `gx` and `gy` are the cell's derivatives.
pub fn compute_slopes(elevations: &Raster<i32>, bearings: &Raster<i32>) -> (slopes: (
    Raster<i32>,
    Raster<i64>,
))
    requires
        elevations.wf(),
        bearings.wf(),
        bearings.same_shape(elevations),
    ensures
        slopes.0.wf() && slopes.0.same_shape(elevations),
        slopes.1.wf() && slopes.1.same_shape(elevations),
        forall|row: int, col: int|
            elevations.has(row, col) ==> #[trigger] slopes.0.at(row, col) == azimuth_at(
                elevations@,
                bearings@,
                row,
                col,
            ),
        forall|row: int, col: int|
            elevations.has(row, col) ==> #[trigger] slopes.1.at(row, col) == gradient_at(
                elevations@,
                bearings@,
                row,
                col,
            ),
        forall|row: int, col: int|
            elevations.inside(row, col, 2) ==> (#[trigger] slopes.0.at(row, col) == FLAT_AZIMUTH
                <==> slopes.1.at(row, col) == 0),
{
    let width: usize = elevations.width;
    let height: usize = elevations.height;
    assert(elevations.cells@.len() == elevations.cells.len());
    let mut azimuths: Raster<i32> = Raster::filled(width, height, 0);
    let mut gradients: Raster<i64> = Raster::filled(width, height, 0);
    if height < 5 || width < 5 {
        return (azimuths, gradients);
    }
    let mut row: usize = 2;
    while row < height - 2
        invariant
            2 <= row <= height - 2,
            width >= 5,
            elevations.wf(),
            bearings.wf(),
            bearings.same_shape(elevations),
            width == elevations.width,
            height == elevations.height,
            azimuths.wf() && azimuths.same_shape(elevations),
            gradients.wf() && gradients.same_shape(elevations),
            forall|r: int, c: int|
                elevations.has(r, c) ==> #[trigger] azimuths.at(r, c) == if r < row {
                    azimuth_at(elevations@, bearings@, r, c)
                } else {
                    0
                },
            forall|r: int, c: int|
                elevations.has(r, c) ==> #[trigger] gradients.at(r, c) == if r < row {
                    gradient_at(elevations@, bearings@, r, c)
                } else {
                    0
                },
        decreases height - row,
    {
        let mut col: usize = 2;
        while col < width - 2
            invariant
                2 <= row < height - 2,
                2 <= col <= width - 2,
                elevations.wf(),
                bearings.wf(),
                bearings.same_shape(elevations),
                width == elevations.width,
                height == elevations.height,
                azimuths.wf() && azimuths.same_shape(elevations),
                gradients.wf() && gradients.same_shape(elevations),
                forall|r: int, c: int|
                    elevations.has(r, c) ==> #[trigger] azimuths.at(r, c) == if r < row || (r == row
                        && c < col) {
                        azimuth_at(elevations@, bearings@, r, c)
                    } else {
                        0
                    },
                forall|r: int, c: int|
                    elevations.has(r, c) ==> #[trigger] gradients.at(r, c) == if r < row || (r
                        == row && c < col) {
                        gradient_at(elevations@, bearings@, r, c)
                    } else {
                        0
                    },
            decreases width - col,
        {
            let gx: i64 = convolve(elevations, row, col, false);
            let gy: i64 = convolve(elevations, row, col, true);
            let azimuth: i32 = calculate_azimuth(gx, gy, bearings.get(row, col));
            let gradient: i64 = compute_gradient_along_azimuth(gx, gy, azimuth);
            azimuths.set(row, col, azimuth);
            gradients.set(row, col, gradient);
            col += 1;
        }
        row += 1;
    }
    proof {
        assert forall|r: int, c: int| elevations.inside(r, c, 2) implies (#[trigger] azimuths.at(
            r,
            c,
        ) == FLAT_AZIMUTH <==> gradients.at(r, c) == 0) by {
            lemma_flat_iff_level(elevations@, bearings@, r, c);
        }
    }
    (azimuths, gradients)
}

} // verus!

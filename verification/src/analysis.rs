//! The terrain analysis from a flat array of elevations.

use crate::aspect::{Aspect, FLAT_AZIMUTH};
use crate::azimuth::{azimuth_at, compute_slopes, gradient_at};
use crate::raster::{Grid, Raster};
use crate::runout::{compute_runout_zones, runout_at, INITIAL_INTENSITY};
use crate::terrain::{Terrain, TerrainView};
use vstd::prelude::*;

verus! {

/// Why an analysis was refused.
#[derive(Clone, Copy, Debug, PartialEq, Eq, Structural)]
pub enum AnalysisError {
    /// The elevations are not `width * height` in number.
    ElevationSize { len: usize, width: u32, height: u32 },
    /// The bearings are not `width * height` in number.
    BearingSize { len: usize, width: u32, height: u32 },
}

/// The four grids of an analysis, each as a flat row-major array.
#[derive(Debug)]
pub struct AzimuthArrayResult {
    pub elevations: Vec<i32>,
    pub azimuths: Vec<i32>,
    pub gradients: Vec<i64>,
    pub runout_zones: Vec<i32>,
    pub width: u32,
    pub height: u32,
}

/// The grid of the given shape with the given cells.
pub open spec fn grid_of<T>(cells: Seq<T>, width: u32, height: u32) -> Grid<T> {
    Grid { width: width as nat, height: height as nat, cells }
}

/// Whether `azimuths`, `gradients` and `runout` are the analysis of
/// `elevations`: each complete and of the elevations' shape, azimuth and
/// steepness as the stencil and the bearings give them, and the runout as it
/// follows from the three for the chosen sectors.
pub open spec fn is_analysis(
    elevations: Grid<i32>,
    bearings: Grid<i32>,
    sectors: Seq<Aspect>,
    azimuths: Grid<i32>,
    gradients: Grid<i64>,
    runout: Grid<i32>,
) -> bool {
    &&& azimuths.wf() && azimuths.width == elevations.width && azimuths.height == elevations.height
    &&& gradients.wf() && gradients.width == elevations.width && gradients.height
        == elevations.height
    &&& runout.wf() && runout.width == elevations.width && runout.height == elevations.height
    &&& forall|row: int, col: int|
        elevations.has(row, col) ==> #[trigger] azimuths.at(row, col) == azimuth_at(
            elevations,
            bearings,
            row,
            col,
        )
    &&& forall|row: int, col: int|
        elevations.has(row, col) ==> #[trigger] gradients.at(row, col) == gradient_at(
            elevations,
            bearings,
            row,
            col,
        )
    &&& forall|row: int, col: int|
        elevations.has(row, col) ==> #[trigger] runout.at(row, col) == runout_at(
            TerrainView { elevations, azimuths, gradients },
            sectors,
            row,
            col,
        )
}

impl AzimuthArrayResult {
    /// The elevations as a grid.
    pub open spec fn elevation_grid(&self) -> Grid<i32> {
        grid_of(self.elevations@, self.width, self.height)
    }

    /// The azimuths as a grid.
    pub open spec fn azimuth_grid(&self) -> Grid<i32> {
        grid_of(self.azimuths@, self.width, self.height)
    }

    /// The steepness as a grid.
    pub open spec fn gradient_grid(&self) -> Grid<i64> {
        grid_of(self.gradients@, self.width, self.height)
    }

    /// The runout intensity as a grid.
    pub open spec fn runout_grid(&self) -> Grid<i32> {
        grid_of(self.runout_zones@, self.width, self.height)
    }

    /// The elevations, in millimetres.
    pub fn elevations(&self) -> (cells: Vec<i32>)
        ensures
            cells@ == self.elevations@,
    {
        let cells = self.elevations.clone();
        assert(cells@ =~= self.elevations@);
        cells
    }

    /// The azimuths, in thousandths of a degree.
    pub fn azimuths(&self) -> (cells: Vec<i32>)
        ensures
            cells@ == self.azimuths@,
    {
        let cells = self.azimuths.clone();
        assert(cells@ =~= self.azimuths@);
        cells
    }

    /// The steepness, in millionths.
    pub fn gradients(&self) -> (cells: Vec<i64>)
        ensures
            cells@ == self.gradients@,
    {
        let cells = self.gradients.clone();
        assert(cells@ =~= self.gradients@);
        cells
    }

    /// The runout intensity, in millionths.
    pub fn runout_zones(&self) -> (cells: Vec<i32>)
        ensures
            cells@ == self.runout_zones@,
    {
        let cells = self.runout_zones.clone();
        assert(cells@ =~= self.runout_zones@);
        cells
    }

    /// The number of columns.
    pub fn width(&self) -> (width: u32)
        ensures
            width == self.width,
    {
        self.width
    }

    /// The number of rows.
    pub fn height(&self) -> (height: u32)
        ensures
            height == self.height,
    {
        self.height
    }
}

/// Copies a slice into a vector.
fn to_cells(values: &[i32]) -> (cells: Vec<i32>)
    ensures
        cells@ == values@,
{
    let mut cells: Vec<i32> = Vec::new();
    let mut k: usize = 0;
    while k < values.len()
        invariant
            k <= values.len(),
            cells@ == values@.subrange(0, k as int),
        decreases values.len() - k,
    {
        cells.push(values[k]);
        assert(cells@ =~= values@.subrange(0, k + 1));
        k += 1;
    }
    assert(cells@ =~= values@);
    cells
}

/// Analyses a grid of elevations given row by row, in millimetres.
///
/// `bearings` holds one angle per cell, in thousandths of a degree: for a
/// cell with derivatives `gx` and `gy` (see `sobel_gradients`), the angle of
/// the vector `(-gx, gy)` clockwise from north. It is read only within the
/// two-cell frame and where a derivative is not zero.
pub fn compute_azimuths_from_array(
    elevations_flat: &[i32],
    width: u32,
    height: u32,
    excluded_aspects: &Vec<Aspect>,
    bearings: &[i32],
) -> (result: Result<AzimuthArrayResult, AnalysisError>)
    ensures
        match result {
            Ok(analysis) => {
                &&& elevations_flat@.len() == width * height
                &&& bearings@.len() == width * height
                &&& analysis.width == width
                &&& analysis.height == height
                &&& analysis.elevations@ == elevations_flat@
                &&& is_analysis(
                    grid_of(elevations_flat@, width, height),
                    grid_of(bearings@, width, height),
                    excluded_aspects@,
                    analysis.azimuth_grid(),
                    analysis.gradient_grid(),
                    analysis.runout_grid(),
                )
                &&& forall|row: int, col: int|
                    analysis.runout_grid().has(row, col) ==> 0 <= #[trigger] analysis.runout_grid().at(
                        row,
                        col,
                    ) <= INITIAL_INTENSITY
                &&& forall|row: int, col: int|
                    analysis.azimuth_grid().inside(row, col, 2) ==> (
                    #[trigger] analysis.azimuth_grid().at(row, col) == FLAT_AZIMUTH
                        <==> analysis.gradient_grid().at(row, col) == 0)
                &&& excluded_aspects@.len() == 0 ==> forall|row: int, col: int|
                    analysis.runout_grid().has(row, col) ==> #[trigger] analysis.runout_grid().at(
                        row,
                        col,
                    ) == 0
            },
            Err(AnalysisError::ElevationSize { len, width: w, height: h }) => {
                &&& elevations_flat@.len() != width * height
                &&& len == elevations_flat@.len() && w == width && h == height
            },
            Err(AnalysisError::BearingSize { len, width: w, height: h }) => {
                &&& elevations_flat@.len() == width * height
                &&& bearings@.len() != width * height
                &&& len == bearings@.len() && w == width && h == height
            },
        },
{
    assert(width * height <= 0xffff_ffff * 0xffff_ffff) by (nonlinear_arith)
        requires
            0 <= width <= 0xffff_ffff,
            0 <= height <= 0xffff_ffff,
    ;
    let total: u64 = (width as u64) * (height as u64);
    if elevations_flat.len() as u64 != total {
        return Err(AnalysisError::ElevationSize { len: elevations_flat.len(), width, height });
    }
    if bearings.len() as u64 != total {
        return Err(AnalysisError::BearingSize { len: bearings.len(), width, height });
    }
    let elevations = Raster {
        width: width as usize,
        height: height as usize,
        cells: to_cells(elevations_flat),
    };
    let bearing_grid = Raster {
        width: width as usize,
        height: height as usize,
        cells: to_cells(bearings),
    };
    let (azimuths, gradients) = compute_slopes(&elevations, &bearing_grid);
    let terrain = Terrain { elevations, azimuths, gradients };
    let runout = compute_runout_zones(&terrain, excluded_aspects);
    proof {
        assert(terrain@.elevations == grid_of(elevations_flat@, width, height));
        assert(bearing_grid@ == grid_of(bearings@, width, height));
        assert(terrain@ == TerrainView {
            elevations: terrain@.elevations,
            azimuths: terrain@.azimuths,
            gradients: terrain@.gradients,
        });
    }
    let analysis = AzimuthArrayResult {
        elevations: terrain.elevations.cells,
        azimuths: terrain.azimuths.cells,
        gradients: terrain.gradients.cells,
        runout_zones: runout.cells,
        width,
        height,
    };
    proof {
        let e = grid_of(elevations_flat@, width, height);
        let b = grid_of(bearings@, width, height);
        assert(analysis.azimuth_grid() == terrain@.azimuths);
        assert(analysis.gradient_grid() == terrain@.gradients);
        assert(analysis.runout_grid() == runout@);
        assert(terrain@ == TerrainView {
            elevations: e,
            azimuths: analysis.azimuth_grid(),
            gradients: analysis.gradient_grid(),
        });
        assert forall|row: int, col: int| e.has(row, col) implies #[trigger] analysis.azimuth_grid().at(
            row,
            col,
        ) == azimuth_at(e, b, row, col) by {
            assert(terrain.azimuths.at(row, col) == azimuth_at(e, b, row, col));
        }
        assert forall|row: int, col: int|
            e.has(row, col) implies #[trigger] analysis.gradient_grid().at(row, col) == gradient_at(
            e,
            b,
            row,
            col,
        ) by {
            assert(terrain.gradients.at(row, col) == gradient_at(e, b, row, col));
        }
        assert forall|row: int, col: int| e.has(row, col) implies #[trigger] analysis.runout_grid().at(
            row,
            col,
        ) == runout_at(terrain@, excluded_aspects@, row, col) by {
            assert(runout.at(row, col) == runout_at(terrain@, excluded_aspects@, row, col));
        }
        assert forall|row: int, col: int|
            analysis.runout_grid().has(row, col) implies 0 <= #[trigger] analysis.runout_grid().at(
            row,
            col,
        ) <= INITIAL_INTENSITY by {
            assert(0 <= runout.at(row, col) <= INITIAL_INTENSITY);
        }
        assert forall|row: int, col: int|
            analysis.azimuth_grid().inside(row, col, 2) implies (
        #[trigger] analysis.azimuth_grid().at(row, col) == FLAT_AZIMUTH
            <==> analysis.gradient_grid().at(row, col) == 0) by {
            assert(terrain.azimuths.at(row, col) == FLAT_AZIMUTH <==> terrain.gradients.at(
                row,
                col,
            ) == 0);
        }
    }
    Ok(analysis)
}

} // verus!

//! The three grids that describe a piece of terrain.

use crate::raster::{Grid, Raster};
use vstd::prelude::*;

verus! {

/// Elevation in millimetres, azimuth in thousandths of a degree and
/// steepness in millionths, one value of each per cell.
#[derive(Debug)]
pub struct Terrain {
    pub elevations: Raster<i32>,
    pub azimuths: Raster<i32>,
    pub gradients: Raster<i64>,
}

/// What a terrain stands for: the three grids.
pub struct TerrainView {
    pub elevations: Grid<i32>,
    pub azimuths: Grid<i32>,
    pub gradients: Grid<i64>,
}

impl TerrainView {
    /// Whether `(row, col)` is a cell of the terrain.
    pub open spec fn has(self, row: int, col: int) -> bool {
        self.elevations.has(row, col)
    }

    /// Whether `(row, col)` is a cell off the outer ring.
    pub open spec fn interior(self, row: int, col: int) -> bool {
        self.elevations.inside(row, col, 1)
    }
}

impl View for Terrain {
    type V = TerrainView;

    open spec fn view(&self) -> TerrainView {
        TerrainView {
            elevations: self.elevations@,
            azimuths: self.azimuths@,
            gradients: self.gradients@,
        }
    }
}

impl Terrain {
    /// The three grids are complete and of one shape.
    pub open spec fn wf(&self) -> bool {
        &&& self.elevations.wf()
        &&& self.azimuths.wf()
        &&& self.gradients.wf()
        &&& self.azimuths.same_shape(&self.elevations)
        &&& self.gradients.same_shape(&self.elevations)
    }

    /// Whether `(row, col)` is a cell of the terrain.
    pub open spec fn has(&self, row: int, col: int) -> bool {
        self.elevations.has(row, col)
    }

    /// Whether `(row, col)` is a cell off the outer ring.
    pub open spec fn interior(&self, row: int, col: int) -> bool {
        self.elevations.inside(row, col, 1)
    }

    /// Puts three grids together; `None` unless each is complete and all
    /// have one shape.
    pub fn new(elevations: Raster<i32>, azimuths: Raster<i32>, gradients: Raster<i64>) -> (terrain:
        Option<Terrain>)
        ensures
            terrain is Some <==> (elevations.wf() && azimuths.wf() && gradients.wf()
                && azimuths.same_shape(&elevations) && gradients.same_shape(&elevations)),
            terrain is Some ==> terrain->0.wf() && terrain->0.elevations == elevations
                && terrain->0.azimuths == azimuths && terrain->0.gradients == gradients,
    {
        let width: usize = elevations.width;
        let height: usize = elevations.height;
        assert(width * height <= 0xffff_ffff_ffff_ffff * 0xffff_ffff_ffff_ffff) by (nonlinear_arith)
            requires
                0 <= width <= 0xffff_ffff_ffff_ffff,
                0 <= height <= 0xffff_ffff_ffff_ffff,
        ;
        let total: u128 = (width as u128) * (height as u128);
        if azimuths.width == width && azimuths.height == height && gradients.width == width
            && gradients.height == height && elevations.cells.len() as u128 == total
            && azimuths.cells.len() as u128 == total && gradients.cells.len() as u128 == total {
            Some(Terrain { elevations, azimuths, gradients })
        } else {
            None
        }
    }
}

} // verus!

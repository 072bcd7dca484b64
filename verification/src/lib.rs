//! Terrain analysis and constrained route finding on elevation rasters,
//! in fixed-point arithmetic.
//!
//! Quantities are integers throughout: elevations in millimetres, angles in
//! thousandths of a degree, slopes and intensities in millionths.

pub mod analysis;
pub mod aspect;
pub mod azimuth;
pub mod find_path;
pub mod flow;
pub mod invariance;
pub mod raster;
pub mod route;
pub mod runout;
pub mod sqrt;
pub mod terrain;
pub mod tracker;

pub use analysis::{compute_azimuths_from_array, AnalysisError, AzimuthArrayResult};
pub use aspect::Aspect;
pub use azimuth::calculate_azimuth;
pub use find_path::{find_path_rs, Path, PathError};
pub use raster::Raster;
pub use terrain::Terrain;

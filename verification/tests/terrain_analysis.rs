use pathfinder::analysis::{compute_azimuths_from_array, AnalysisError};
use pathfinder::aspect::{Aspect, FLAT_AZIMUTH};
use pathfinder::azimuth::{
    calculate_azimuth, compute_gradient_along_azimuth, compute_slopes, sobel_gradients,
};
use pathfinder::raster::Raster;
use pathfinder::sqrt::integer_sqrt;

fn bearing_of(gx: i64, gy: i64) -> i32 {
    let degrees = (0.0 - gx as f64).atan2(gy as f64).to_degrees();
    (degrees * 1000.0).round() as i32
}

fn bearings_for(elevations: &[i32], width: usize, height: usize) -> Vec<i32> {
    let grid = Raster::from_cells(width, height, elevations.to_vec()).unwrap();
    let (gx, gy) = sobel_gradients(&grid);
    gx.cells.iter().zip(gy.cells.iter()).map(|(x, y)| bearing_of(*x, *y)).collect()
}

fn rotate_clockwise(cells: &[i32], width: usize, height: usize) -> Vec<i32> {
    let mut turned = vec![0; cells.len()];
    for row in 0..width {
        for col in 0..height {
            turned[row * height + col] = cells[(height - 1 - col) * width + row];
        }
    }
    turned
}

#[test]
fn integer_sqrt_rounds_down() {
    assert_eq!(integer_sqrt(0), 0);
    assert_eq!(integer_sqrt(1), 1);
    assert_eq!(integer_sqrt(3), 1);
    assert_eq!(integer_sqrt(4), 2);
    assert_eq!(integer_sqrt(99), 9);
    assert_eq!(integer_sqrt(100), 10);
    assert_eq!(integer_sqrt(200), 14);
    assert_eq!(integer_sqrt(80000), 282);
    assert_eq!(integer_sqrt(u64::MAX as u128), 4294967295);
    assert_eq!(integer_sqrt(u128::MAX), u64::MAX);
    assert_eq!(integer_sqrt((u64::MAX as u128) * (u64::MAX as u128) - 1), u64::MAX - 1);
}

#[test]
fn raster_keeps_cells_row_by_row() {
    let mut grid = Raster::filled(3, 2, 7);
    assert_eq!(grid.cells, vec![7; 6]);
    grid.set(1, 2, 9);
    grid.set(0, 1, 4);
    assert_eq!(grid.cells, vec![7, 4, 7, 7, 7, 9]);
    assert_eq!(grid.get(1, 2), 9);
    assert_eq!(grid.try_get(0, 1), Some(4));
    assert_eq!(grid.try_get(2, 0), None);
    assert_eq!(grid.try_get(0, 3), None);
    assert!(Raster::from_cells(3, 2, vec![0; 5]).is_none());
    assert!(Raster::from_cells(3, 2, vec![0; 6]).is_some());
    assert!(Raster::<i32>::from_cells(0, 5, Vec::new()).is_some());
}

#[test]
fn calculate_azimuth_brings_the_bearing_into_the_full_turn() {
    assert_eq!(calculate_azimuth(0, 0, 123456), FLAT_AZIMUTH);
    assert_eq!(calculate_azimuth(1, 0, -90000), 270000);
    assert_eq!(calculate_azimuth(0, 1, 0), 0);
    assert_eq!(calculate_azimuth(0, -1, 180000), 180000);
    assert_eq!(calculate_azimuth(0, -1, -180000), 180000);
    assert_eq!(calculate_azimuth(-1, 0, 90000), 90000);
    assert_eq!(calculate_azimuth(5, 5, -1), 359999);
    assert_eq!(calculate_azimuth(5, 5, 360000), 0);
    assert_eq!(calculate_azimuth(5, 5, -360000), 0);
    assert_eq!(calculate_azimuth(5, 5, 725000), 5000);
    assert_eq!(calculate_azimuth(5, 5, i32::MIN), 276352);
    assert_eq!(calculate_azimuth(5, 5, i32::MAX), 83647);
}

#[test]
fn gradient_is_the_length_of_the_derivatives_over_680000() {
    assert_eq!(compute_gradient_along_azimuth(680000, 0, 270000), 1000000);
    assert_eq!(compute_gradient_along_azimuth(0, -680000, 180000), 1000000);
    assert_eq!(compute_gradient_along_azimuth(3, 4, 0), 7);
    assert_eq!(compute_gradient_along_azimuth(1, 0, 0), 1);
    assert_eq!(compute_gradient_along_azimuth(0, 0, 0), 0);
    assert_eq!(compute_gradient_along_azimuth(680000, 680000, FLAT_AZIMUTH), 0);
    assert_eq!(compute_gradient_along_azimuth(24000000, 0, 270000), 35294117);
    assert_eq!(
        compute_gradient_along_azimuth(1073741824000, -1073741824000, 0),
        2233088602923
    );
}

#[test]
fn flat_plane_is_flat_everywhere_within_the_frame() {
    let elevations = vec![100000; 100];
    let bearings = bearings_for(&elevations, 10, 10);
    let sectors = vec![Aspect::North, Aspect::South, Aspect::East, Aspect::West];
    let analysis =
        compute_azimuths_from_array(&elevations, 10, 10, &sectors, &bearings).unwrap();
    assert_eq!(analysis.width(), 10);
    assert_eq!(analysis.height(), 10);
    assert_eq!(analysis.elevations(), elevations);
    for row in 0..10 {
        for col in 0..10 {
            let framed = row < 2 || row >= 8 || col < 2 || col >= 8;
            let expected = if framed { 0 } else { FLAT_AZIMUTH };
            assert_eq!(analysis.azimuths()[row * 10 + col], expected);
        }
    }
    assert_eq!(analysis.gradients(), vec![0; 100]);
    assert_eq!(analysis.runout_zones(), vec![0; 100]);
}

#[test]
fn slope_rising_eastwards_faces_west() {
    let mut elevations = Vec::new();
    for _row in 0..10 {
        for col in 0..10 {
            elevations.push(100000 * col);
        }
    }
    let bearings = bearings_for(&elevations, 10, 10);
    let analysis =
        compute_azimuths_from_array(&elevations, 10, 10, &Vec::new(), &bearings).unwrap();
    let azimuths = analysis.azimuths();
    let gradients = analysis.gradients();
    for row in 0..10 {
        for col in 0..10 {
            let framed = row < 2 || row >= 8 || col < 2 || col >= 8;
            assert_eq!(azimuths[row * 10 + col], if framed { 0 } else { 270000 });
            assert_eq!(gradients[row * 10 + col], if framed { 0 } else { 35294117 });
            if !framed {
                assert_eq!(Aspect::from_azimuth(azimuths[row * 10 + col]), Aspect::West);
            }
        }
    }
    assert_eq!(analysis.runout_zones(), vec![0; 100]);
}

#[test]
fn sobel_gradients_of_a_ramp_are_240_times_the_rise_per_cell() {
    let mut cells = Vec::new();
    for row in 0..6 {
        for col in 0..7 {
            cells.push(3 * col - 11 * row + 5);
        }
    }
    let grid = Raster::from_cells(7, 6, cells).unwrap();
    let (gx, gy) = sobel_gradients(&grid);
    for row in 0..6 {
        for col in 0..7 {
            let framed = row < 2 || row >= 4 || col < 2 || col >= 5;
            assert_eq!(gx.get(row, col), if framed { 0 } else { 720 });
            assert_eq!(gy.get(row, col), if framed { 0 } else { -2640 });
        }
    }
}

#[test]
fn sobel_gradients_weigh_a_single_cell_by_the_stencil() {
    let mut cells = vec![0; 81];
    cells[4 * 9 + 4] = 1;
    let grid = Raster::from_cells(9, 9, cells).unwrap();
    let (gx, gy) = sobel_gradients(&grid);
    let stencil: [[i64; 5]; 5] = [
        [-5, -4, 0, 4, 5],
        [-8, -10, 0, 10, 8],
        [-10, -20, 0, 20, 10],
        [-8, -10, 0, 10, 8],
        [-5, -4, 0, 4, 5],
    ];
    for ki in 0..5 {
        for kj in 0..5 {
            assert_eq!(gx.get(6 - ki, 6 - kj), stencil[ki][kj]);
            assert_eq!(gy.get(6 - ki, 6 - kj), stencil[kj][ki]);
        }
    }
}

fn cone() -> Vec<i32> {
    vec![-7071, -6403, -5831, -5385, -5099, -5000, -5099, -5385, -5831, -6403, -7071, -6403, -5657, -5000, -4472, -4123, -4000, -4123, -4472, -5000, -5657, -6403, -5831, -5000, -4243, -3606, -3162, -3000, -3162, -3606, -4243, -5000, -5831, -5385, -4472, -3606, -2828, -2236, -2000, -2236, -2828, -3606, -4472, -5385, -5099, -4123, -3162, -2236, -1414, -1000, -1414, -2236, -3162, -4123, -5099, -5000, -4000, -3000, -2000, -1000, 0, -1000, -2000, -3000, -4000, -5000, -5099, -4123, -3162, -2236, -1414, -1000, -1414, -2236, -3162, -4123, -5099, -5385, -4472, -3606, -2828, -2236, -2000, -2236, -2828, -3606, -4472, -5385, -5831, -5000, -4243, -3606, -3162, -3000, -3162, -3606, -4243, -5000, -5831, -6403, -5657, -5000, -4472, -4123, -4000, -4123, -4472, -5000, -5657, -6403, -7071, -6403, -5831, -5385, -5099, -5000, -5099, -5385, -5831, -6403, -7071]
}

fn cone_bearings() -> Vec<i32> {
    vec![0, 0, 0, 0, 0, 0, 0, 0, 0, 0, 0, 0, 0, 0, 0, 0, 0, 0, 0, 0, 0, 0, 0, 0, -45000, -34013, -18858, 0, 18858, 34013, 45000, 0, 0, 0, 0, -55987, -45000, -26877, 0, 26877, 45000, 55987, 0, 0, 0, 0, -71142, -63123, -45000, 0, 45000, 63123, 71142, 0, 0, 0, 0, -90000, -90000, -90000, 0, 90000, 90000, 90000, 0, 0, 0, 0, -108858, -116877, -135000, 180000, 135000, 116877, 108858, 0, 0, 0, 0, -124013, -135000, -153123, 180000, 153123, 135000, 124013, 0, 0, 0, 0, -135000, -145987, -161142, 180000, 161142, 145987, 135000, 0, 0, 0, 0, 0, 0, 0, 0, 0, 0, 0, 0, 0, 0, 0, 0, 0, 0, 0, 0, 0, 0, 0, 0]
}

#[test]
fn cone_analysis_matches_the_worked_example() {
    let analysis = compute_azimuths_from_array(
        &cone(),
        11,
        11,
        &vec![Aspect::North],
        &cone_bearings(),
    )
    .unwrap();
    let azimuths: Vec<i32> = vec![0, 0, 0, 0, 0, 0, 0, 0, 0, 0, 0, 0, 0, 0, 0, 0, 0, 0, 0, 0, 0, 0, 0, 0, 315000, 325987, 341142, 0, 18858, 34013, 45000, 0, 0, 0, 0, 304013, 315000, 333123, 0, 26877, 45000, 55987, 0, 0, 0, 0, 288858, 296877, 315000, 0, 45000, 63123, 71142, 0, 0, 0, 0, 270000, 270000, 270000, -1000, 90000, 90000, 90000, 0, 0, 0, 0, 251142, 243123, 225000, 180000, 135000, 116877, 108858, 0, 0, 0, 0, 235987, 225000, 206877, 180000, 153123, 135000, 124013, 0, 0, 0, 0, 225000, 214013, 198858, 180000, 161142, 145987, 135000, 0, 0, 0, 0, 0, 0, 0, 0, 0, 0, 0, 0, 0, 0, 0, 0, 0, 0, 0, 0, 0, 0, 0, 0];
    let gradients: Vec<i64> = vec![0, 0, 0, 0, 0, 0, 0, 0, 0, 0, 0, 0, 0, 0, 0, 0, 0, 0, 0, 0, 0, 0, 0, 0, 345644, 340901, 331182, 325502, 331182, 340901, 345644, 0, 0, 0, 0, 340901, 335224, 310935, 295011, 310935, 335224, 340901, 0, 0, 0, 0, 331182, 310935, 247389, 195605, 247389, 310935, 331182, 0, 0, 0, 0, 325502, 295011, 195605, 0, 195605, 295011, 325502, 0, 0, 0, 0, 331182, 310935, 247389, 195605, 247389, 310935, 331182, 0, 0, 0, 0, 340901, 335224, 310935, 295011, 310935, 335224, 340901, 0, 0, 0, 0, 345644, 340901, 331182, 325502, 331182, 340901, 345644, 0, 0, 0, 0, 0, 0, 0, 0, 0, 0, 0, 0, 0, 0, 0, 0, 0, 0, 0, 0, 0, 0, 0, 0];
    let runout: Vec<i32> = vec![0, 0, 0, 0, 0, 0, 0, 0, 0, 0, 0, 0, 920000, 920000, 644000, 920000, 920000, 920000, 644000, 920000, 920000, 0, 0, 644000, 12517, 26146, 54074, 70396, 54074, 26146, 12517, 644000, 0, 0, 450800, 29721, 42459, 112255, 158014, 112255, 42459, 29721, 450800, 0, 0, 0, 144480, 206401, 294859, 443663, 294859, 206401, 144480, 0, 0, 0, 0, 0, 144480, 217394, 310564, 217394, 144480, 0, 0, 0, 0, 0, 0, 0, 144480, 217394, 144480, 0, 0, 0, 0, 0, 0, 0, 0, 0, 0, 0, 0, 0, 0, 0, 0, 0, 0, 0, 0, 0, 0, 0, 0, 0, 0, 0, 0, 0, 0, 0, 0, 0, 0, 0, 0, 0, 0, 0, 0, 0, 0, 0, 0, 0, 0, 0, 0];
    assert_eq!(analysis.azimuths(), azimuths);
    assert_eq!(analysis.gradients(), gradients);
    assert_eq!(analysis.runout_zones(), runout);
}

#[test]
fn cone_bearings_agree_with_the_arctangent() {
    assert_eq!(bearings_for(&cone(), 11, 11), cone_bearings());
}

#[test]
fn cone_sheds_northwards_from_its_north_face() {
    let analysis = compute_azimuths_from_array(
        &cone(),
        11,
        11,
        &vec![Aspect::North],
        &cone_bearings(),
    )
    .unwrap();
    let azimuths = analysis.azimuths();
    let gradients = analysis.gradients();
    let runout = analysis.runout_zones();
    assert_eq!(Aspect::from_azimuth(azimuths[3 * 11 + 5]), Aspect::North);
    assert!(gradients[3 * 11 + 5] >= 176000);
    assert_eq!(azimuths[5 * 11 + 5], FLAT_AZIMUTH);
    assert_eq!(gradients[5 * 11 + 5], 0);
    assert_eq!(runout[1 * 11 + 5], 920000);
    assert!(runout[2 * 11 + 5] > 0);
    for row in 7..11 {
        for col in 0..11 {
            assert_eq!(runout[row * 11 + col], 0);
        }
    }
    for value in runout.iter() {
        assert!(0 <= *value && *value <= 1000000);
    }
}

#[test]
fn flat_azimuth_goes_with_zero_gradient_within_the_frame() {
    let analysis = compute_azimuths_from_array(
        &cone(),
        11,
        11,
        &vec![Aspect::North],
        &cone_bearings(),
    )
    .unwrap();
    let azimuths = analysis.azimuths();
    let gradients = analysis.gradients();
    for row in 2..9 {
        for col in 2..9 {
            let k = row * 11 + col;
            assert_eq!(azimuths[k] == FLAT_AZIMUTH, gradients[k] == 0);
            assert!(azimuths[k] == FLAT_AZIMUTH || (0 <= azimuths[k] && azimuths[k] < 360000));
        }
    }
}

#[test]
fn raising_the_terrain_changes_nothing() {
    let sectors = vec![Aspect::North, Aspect::Southwest];
    let bearings = cone_bearings();
    let base = compute_azimuths_from_array(&cone(), 11, 11, &sectors, &bearings).unwrap();
    for offset in [-8000000, -1, 1, 123456789] {
        let raised: Vec<i32> = cone().iter().map(|e| e + offset).collect();
        assert_eq!(bearings_for(&raised, 11, 11), bearings);
        let analysis =
            compute_azimuths_from_array(&raised, 11, 11, &sectors, &bearings).unwrap();
        assert_eq!(analysis.azimuths(), base.azimuths());
        assert_eq!(analysis.gradients(), base.gradients());
        assert_eq!(analysis.runout_zones(), base.runout_zones());
        assert_eq!(analysis.elevations(), raised);
    }
}

#[test]
fn quarter_turn_adds_a_quarter_to_the_azimuth_and_keeps_the_gradient() {
    let mut elevations = Vec::new();
    for row in 0..9i32 {
        for col in 0..12i32 {
            elevations.push(row * row * 40 - col * 300 + row * col * 7);
        }
    }
    let bearings = bearings_for(&elevations, 12, 9);
    let base = compute_azimuths_from_array(&elevations, 12, 9, &Vec::new(), &bearings).unwrap();
    let turned = rotate_clockwise(&elevations, 12, 9);
    let turned_bearings: Vec<i32> =
        rotate_clockwise(&bearings, 12, 9).iter().map(|b| b + 90000).collect();
    let analysis =
        compute_azimuths_from_array(&turned, 9, 12, &Vec::new(), &turned_bearings).unwrap();
    let azimuths = rotate_clockwise(&base.azimuths(), 12, 9);
    let gradients_before = base.gradients();
    for row in 2..10 {
        for col in 2..7 {
            let k = row * 9 + col;
            let from = (9 - 1 - col) * 12 + row;
            assert_eq!(analysis.gradients()[k], gradients_before[from]);
            let expected = if azimuths[k] == FLAT_AZIMUTH {
                FLAT_AZIMUTH
            } else {
                (azimuths[k] + 90000) % 360000
            };
            assert_eq!(analysis.azimuths()[k], expected);
        }
    }
    let direct = bearings_for(&turned, 9, 12);
    for row in 2..10 {
        for col in 2..7 {
            let k = row * 9 + col;
            let difference = (direct[k] - turned_bearings[k]).rem_euclid(360000);
            assert!(difference <= 1 || difference >= 359999);
        }
    }
}

#[test]
fn no_sectors_no_runout() {
    let analysis =
        compute_azimuths_from_array(&cone(), 11, 11, &Vec::new(), &cone_bearings()).unwrap();
    assert_eq!(analysis.runout_zones(), vec![0; 121]);
    assert!(analysis.gradients().iter().any(|g| *g >= 176000));
}

#[test]
fn analysis_refuses_arrays_of_the_wrong_size() {
    let elevations = vec![0; 12];
    let bearings = vec![0; 12];
    assert_eq!(
        compute_azimuths_from_array(&elevations, 3, 5, &Vec::new(), &bearings).err(),
        Some(AnalysisError::ElevationSize { len: 12, width: 3, height: 5 })
    );
    assert_eq!(
        compute_azimuths_from_array(&elevations, 3, 4, &Vec::new(), &bearings[..11]).err(),
        Some(AnalysisError::BearingSize { len: 11, width: 3, height: 4 })
    );
    assert_eq!(
        compute_azimuths_from_array(&elevations[..0], 0, 0, &Vec::new(), &bearings).err(),
        Some(AnalysisError::BearingSize { len: 12, width: 0, height: 0 })
    );
    assert!(compute_azimuths_from_array(&elevations, 3, 4, &Vec::new(), &bearings).is_ok());
}

#[test]
fn analysis_of_a_grid_too_small_for_the_stencil_is_all_zero() {
    for (width, height) in [(0u32, 0u32), (1, 1), (4, 9), (9, 4), (2, 2)] {
        let n = (width * height) as usize;
        let elevations: Vec<i32> = (0..n as i32).map(|k| k * k * 1000).collect();
        let bearings = vec![45000; n];
        let analysis = compute_azimuths_from_array(
            &elevations,
            width,
            height,
            &vec![Aspect::North, Aspect::East],
            &bearings,
        )
        .unwrap();
        assert_eq!(analysis.azimuths(), vec![0; n]);
        assert_eq!(analysis.gradients(), vec![0; n]);
        assert_eq!(analysis.runout_zones(), vec![0; n]);
    }
}

#[test]
fn compute_slopes_reads_bearings_only_where_there_is_a_slope() {
    let elevations = Raster::from_cells(5, 5, vec![0; 25]).unwrap();
    let bearings = Raster::from_cells(5, 5, vec![77000; 25]).unwrap();
    let (azimuths, gradients) = compute_slopes(&elevations, &bearings);
    assert_eq!(azimuths.get(2, 2), FLAT_AZIMUTH);
    assert_eq!(gradients.get(2, 2), 0);
    let mut tilted = vec![0; 25];
    tilted[2 * 5 + 3] = 1;
    let elevations = Raster::from_cells(5, 5, tilted).unwrap();
    let (azimuths, gradients) = compute_slopes(&elevations, &bearings);
    assert_eq!(azimuths.get(2, 2), 77000);
    assert_eq!(gradients.get(2, 2), 29);
    assert_eq!(azimuths.get(1, 1), 0);
}

use pathfinder::aspect::{Aspect, FLAT_AZIMUTH};
use pathfinder::flow::{compute_d8_flow_directions, neighbour, NO_FLOW};
use pathfinder::raster::Raster;
use pathfinder::runout::{compute_runout_zones, is_release_zone};
use pathfinder::terrain::Terrain;

fn terrain_of(
    width: usize,
    height: usize,
    elevations: Vec<i32>,
    azimuths: Vec<i32>,
    gradients: Vec<i64>,
) -> Terrain {
    Terrain::new(
        Raster::from_cells(width, height, elevations).unwrap(),
        Raster::from_cells(width, height, azimuths).unwrap(),
        Raster::from_cells(width, height, gradients).unwrap(),
    )
    .unwrap()
}

#[test]
fn neighbour_follows_the_compass_clockwise_from_north() {
    assert_eq!(neighbour(5, 5, 0), (4, 5));
    assert_eq!(neighbour(5, 5, 1), (4, 6));
    assert_eq!(neighbour(5, 5, 2), (5, 6));
    assert_eq!(neighbour(5, 5, 3), (6, 6));
    assert_eq!(neighbour(5, 5, 4), (6, 5));
    assert_eq!(neighbour(5, 5, 5), (6, 4));
    assert_eq!(neighbour(5, 5, 6), (5, 4));
    assert_eq!(neighbour(5, 5, 7), (4, 4));
}

fn cone() -> Vec<i32> {
    vec![-7071, -6403, -5831, -5385, -5099, -5000, -5099, -5385, -5831, -6403, -7071, -6403, -5657, -5000, -4472, -4123, -4000, -4123, -4472, -5000, -5657, -6403, -5831, -5000, -4243, -3606, -3162, -3000, -3162, -3606, -4243, -5000, -5831, -5385, -4472, -3606, -2828, -2236, -2000, -2236, -2828, -3606, -4472, -5385, -5099, -4123, -3162, -2236, -1414, -1000, -1414, -2236, -3162, -4123, -5099, -5000, -4000, -3000, -2000, -1000, 0, -1000, -2000, -3000, -4000, -5000, -5099, -4123, -3162, -2236, -1414, -1000, -1414, -2236, -3162, -4123, -5099, -5385, -4472, -3606, -2828, -2236, -2000, -2236, -2828, -3606, -4472, -5385, -5831, -5000, -4243, -3606, -3162, -3000, -3162, -3606, -4243, -5000, -5831, -6403, -5657, -5000, -4472, -4123, -4000, -4123, -4472, -5000, -5657, -6403, -7071, -6403, -5831, -5385, -5099, -5000, -5099, -5385, -5831, -6403, -7071]
}

#[test]
fn flow_directions_of_the_cone_point_away_from_the_peak() {
    let elevations = Raster::from_cells(11, 11, cone()).unwrap();
    let flow = compute_d8_flow_directions(&elevations);
    let expected: Vec<u8> = vec![255, 255, 255, 255, 255, 255, 255, 255, 255, 255, 255, 255, 7, 7, 7, 0, 0, 0, 1, 1, 1, 255, 255, 7, 7, 7, 0, 0, 0, 1, 1, 1, 255, 255, 7, 7, 7, 7, 0, 1, 1, 1, 1, 255, 255, 6, 6, 7, 7, 0, 1, 1, 2, 2, 255, 255, 6, 6, 6, 6, 0, 2, 2, 2, 2, 255, 255, 6, 6, 5, 5, 4, 3, 3, 2, 2, 255, 255, 5, 5, 5, 5, 4, 3, 3, 3, 3, 255, 255, 5, 5, 5, 4, 4, 4, 3, 3, 3, 255, 255, 5, 5, 5, 4, 4, 4, 3, 3, 3, 255, 255, 255, 255, 255, 255, 255, 255, 255, 255, 255, 255];
    assert_eq!(flow.cells, expected);
}

#[test]
fn flow_direction_points_to_a_strictly_lower_neighbour_or_nowhere() {
    let mut cells = Vec::new();
    let mut seed: i64 = 12345;
    for _ in 0..(13 * 9) {
        seed = (seed * 1103515245 + 12345) % 2147483648;
        cells.push((seed % 2001 - 1000) as i32);
    }
    let elevations = Raster::from_cells(13, 9, cells).unwrap();
    let flow = compute_d8_flow_directions(&elevations);
    for row in 0..9 {
        for col in 0..13 {
            let dir = flow.get(row, col);
            if row == 0 || row == 8 || col == 0 || col == 12 {
                assert_eq!(dir, NO_FLOW);
            } else if dir == NO_FLOW {
                for d in 0..8 {
                    let (r, c) = neighbour(row, col, d);
                    assert!(elevations.get(r, c) >= elevations.get(row, col));
                }
            } else {
                assert!(dir < 8);
                let (r, c) = neighbour(row, col, dir);
                assert!(elevations.get(r, c) < elevations.get(row, col));
            }
        }
    }
}

fn direction_at_centre(cells: Vec<i32>) -> u8 {
    let elevations = Raster::from_cells(3, 3, cells).unwrap();
    compute_d8_flow_directions(&elevations).get(1, 1)
}

#[test]
fn steepest_neighbour_wins_and_the_first_of_equals() {
    assert_eq!(direction_at_centre(vec![1000, 1000, 1000, 1000, 1000, 1000, 1000, 1000, 1000]), 255);
    assert_eq!(direction_at_centre(vec![0, 0, 0, 0, 1000, 0, 0, 0, 0]), 0);
    assert_eq!(direction_at_centre(vec![1000, 1000, 0, 1000, 1000, 1000, 1000, 1000, 1000]), 1);
    assert_eq!(direction_at_centre(vec![1000, 293, 0, 1000, 1000, 1000, 1000, 1000, 1000]), 1);
    assert_eq!(direction_at_centre(vec![1000, 292, 0, 1000, 1000, 1000, 1000, 1000, 1000]), 0);
    assert_eq!(direction_at_centre(vec![2000, 414, 0, 2000, 1414, 2000, 2000, 2000, 2000]), 0);
    assert_eq!(direction_at_centre(vec![2000, 2000, 0, 2000, 1414, 2000, 2000, 414, 2000]), 1);
    assert_eq!(direction_at_centre(vec![5, 5, 5, -1, 0, 5, 5, 5, 5]), 6);
    assert_eq!(direction_at_centre(vec![-61, 20, 20, 20, 10, 20, 20, 20, -90]), 3);
    assert_eq!(direction_at_centre(vec![-6, -5, -5, -5, -5, -5, -5, -5, -5]), 7);
}

#[test]
fn flow_directions_of_a_grid_without_interior_are_all_none() {
    for (width, height) in [(0usize, 0usize), (1, 5), (5, 2), (2, 2)] {
        let elevations =
            Raster::from_cells(width, height, (0..(width * height) as i32).collect()).unwrap();
        let flow = compute_d8_flow_directions(&elevations);
        assert_eq!(flow.cells, vec![NO_FLOW; width * height]);
    }
}

fn north_slope() -> Terrain {
    let mut elevations = Vec::new();
    for row in 0..7 {
        for _col in 0..7 {
            elevations.push(row * 500);
        }
    }
    terrain_of(7, 7, elevations, vec![0, 0, 0, 0, 0, 0, 0, 0, 0, 0, 0, 0, 0, 0, 0, 0, 0, 0, 0, 0, 0, 0, 0, 0, 0, 0, 0, 0, 0, 0, 0, 0, 0, 0, 0, 0, 0, 0, 0, 0, 0, 0, 0, 0, 0, 0, 0, 0, 0], vec![0, 0, 0, 0, 0, 0, 0, 0, 0, 0, 0, 0, 0, 0, 0, 0, 176470, 176470, 176470, 0, 0, 0, 0, 176470, 176470, 176470, 0, 0, 0, 0, 176470, 176470, 176470, 0, 0, 0, 0, 0, 0, 0, 0, 0, 0, 0, 0, 0, 0, 0, 0])
}

#[test]
fn release_zones_are_steep_cells_of_a_chosen_aspect() {
    let terrain = north_slope();
    let north = vec![Aspect::North];
    assert!(is_release_zone(&terrain, &north, 3, 3));
    assert!(!is_release_zone(&terrain, &north, 1, 3));
    assert!(!is_release_zone(&terrain, &vec![Aspect::South], 3, 3));
    assert!(!is_release_zone(&terrain, &vec![Aspect::East], 3, 3));
    assert!(is_release_zone(&terrain, &vec![Aspect::Northeast], 3, 3));
    assert!(!is_release_zone(&terrain, &vec![Aspect::South, Aspect::Northwest], 3, 3));
    assert!(is_release_zone(&terrain, &vec![Aspect::South, Aspect::Northeast], 3, 3));
    assert!(!is_release_zone(&terrain, &Vec::new(), 3, 3));
}

#[test]
fn runout_of_a_uniform_north_slope() {
    let terrain = north_slope();
    let runout = compute_runout_zones(&terrain, &vec![Aspect::North]);
    let expected: Vec<i32> = vec![0, 0, 0, 0, 0, 0, 0, 0, 644000, 920000, 920000, 920000, 644000, 0, 0, 450800, 498649, 498649, 498649, 450800, 0, 0, 349054, 498649, 498649, 498649, 349054, 0, 0, 349054, 498649, 498649, 498649, 349054, 0, 0, 244337, 349054, 349054, 349054, 244337, 0, 0, 0, 0, 0, 0, 0, 0];
    assert_eq!(runout.cells, expected);
    assert_eq!(compute_runout_zones(&terrain, &vec![Aspect::Northeast]).cells, expected);
}

#[test]
fn runout_is_nothing_without_release_zones() {
    let terrain = north_slope();
    assert_eq!(compute_runout_zones(&terrain, &Vec::new()).cells, vec![0; 49]);
    assert_eq!(compute_runout_zones(&terrain, &vec![Aspect::South]).cells, vec![0; 49]);
    assert_eq!(compute_runout_zones(&terrain, &vec![Aspect::Flat]).cells, vec![0; 49]);
}

#[test]
fn debris_fades_by_eight_percent_a_cell_and_rests_below_a_twentieth() {
    let width = 60;
    let mut elevations = Vec::new();
    for row in 0..5 {
        for col in 0..width {
            elevations.push((width - col) as i32 * 1000 + if row == 2 { 0 } else { 500000 });
        }
    }
    let mut azimuths = vec![FLAT_AZIMUTH; 5 * width];
    let mut gradients = vec![0i64; 5 * width];
    azimuths[2 * width + 1] = 90000;
    gradients[2 * width + 1] = 400000;
    let terrain = terrain_of(width, 5, elevations, azimuths, gradients);
    let runout = compute_runout_zones(&terrain, &vec![Aspect::East]);
    let along: Vec<i32> = vec![0, 0, 920000, 846400, 778688, 716392, 659080, 606353, 557844, 513216, 472158, 434385, 399634, 367663, 338249, 311189, 286293, 263389, 242317, 222931, 205096, 188688, 173592, 159704, 146927, 135172, 124358, 114409, 105256, 96835, 89088, 81960, 75403, 69370, 63820, 58714, 54016, 49694, 34785, 24349, 0, 0, 0, 0, 0, 0, 0, 0, 0, 0, 0, 0, 0, 0, 0, 0, 0, 0, 0, 0];
    let beside: Vec<i32> = vec![0, 450800, 644000, 592480, 545081, 501474, 461356, 424447, 390490, 359251, 330510, 304069, 279743, 257364, 236774, 217832, 200405, 184372, 169621, 156051, 143567, 132081, 121514, 111792, 102848, 94620, 87050, 80086, 73679, 67784, 62361, 57372, 52782, 48559, 44674, 41099, 37811, 34785, 24349, 0, 0, 0, 0, 0, 0, 0, 0, 0, 0, 0, 0, 0, 0, 0, 0, 0, 0, 0, 0, 0];
    for col in 0..width {
        assert_eq!(runout.get(2, col), along[col]);
        assert_eq!(runout.get(1, col), beside[col]);
        assert_eq!(runout.get(3, col), beside[col]);
        assert_eq!(runout.get(0, col), 0);
        assert_eq!(runout.get(4, col), 0);
    }
    assert_eq!(runout.get(2, 1), 0);
    assert_eq!(runout.get(2, 2), 920000);
    assert_eq!(runout.get(2, 3), 846400);
    assert_eq!(runout.get(2, 36), 54016);
    assert_eq!(runout.get(2, 37), 49694);
    assert_eq!(runout.get(2, 38), 34785);
    assert_eq!(runout.get(2, 39), 24349);
    assert_eq!(runout.get(2, 40), 0);
}

fn mark_of_a_lone_release_zone(gradient: i64) -> i32 {
    let mut azimuths = vec![0; 9];
    let mut gradients = vec![0i64; 9];
    azimuths[4] = 180000;
    gradients[4] = gradient;
    let terrain = terrain_of(3, 3, vec![0; 9], azimuths, gradients);
    let runout = compute_runout_zones(&terrain, &vec![Aspect::South]);
    for k in 0..9 {
        if k != 4 {
            assert_eq!(runout.cells[k], 0);
        }
    }
    runout.cells[4]
}

#[test]
fn release_zone_marks_itself_less_the_steeper_it_is() {
    assert_eq!(mark_of_a_lone_release_zone(175999), 0);
    assert_eq!(mark_of_a_lone_release_zone(176000), 500000);
    assert_eq!(mark_of_a_lone_release_zone(176001), 499997);
    assert_eq!(mark_of_a_lone_release_zone(263000), 250000);
    assert_eq!(mark_of_a_lone_release_zone(349999), 2);
    assert_eq!(mark_of_a_lone_release_zone(350000), 0);
    assert_eq!(mark_of_a_lone_release_zone(1000000), 0);
}

#[test]
fn runout_spreads_two_cells_sideways_but_not_onto_release_zones() {
    let mut elevations = vec![100000; 49];
    for col in 0..7 {
        elevations[3 * 7 + col] = (7 - col as i32) * 100;
    }
    let mut azimuths = vec![FLAT_AZIMUTH; 49];
    let mut gradients = vec![0i64; 49];
    azimuths[3 * 7 + 1] = 90000;
    gradients[3 * 7 + 1] = 500000;
    azimuths[2 * 7 + 3] = 90000;
    gradients[2 * 7 + 3] = 500000;
    let terrain = terrain_of(7, 7, elevations, azimuths, gradients);
    let runout = compute_runout_zones(&terrain, &vec![Aspect::East]);
    let expected: Vec<i32> = vec![0, 0, 0, 0, 0, 0, 0, 0, 0, 450800, 0, 414736, 381556, 0, 0, 450800, 644000, 0, 592480, 545081, 0, 0, 0, 920000, 920000, 846400, 778688, 0, 0, 450800, 644000, 644000, 592480, 545081, 0, 0, 0, 450800, 450800, 414736, 381556, 0, 0, 0, 0, 0, 0, 0, 0];
    assert_eq!(runout.cells, expected);
}

#[test]
fn runout_lies_within_two_cells_of_the_flow_below_a_release_zone() {
    let mut seed: i64 = 2024;
    let mut next = |span: i64| {
        seed = (seed * 1103515245 + 12345) % 2147483648;
        seed % span
    };
    let (width, height) = (14usize, 11usize);
    let mut elevations = Vec::new();
    let mut azimuths = Vec::new();
    let mut gradients = Vec::new();
    for _ in 0..(width * height) {
        elevations.push(next(4000) as i32);
        azimuths.push(next(360000) as i32);
        gradients.push(next(400000));
    }
    let terrain = terrain_of(width, height, elevations, azimuths, gradients);
    let sectors = vec![Aspect::East, Aspect::Southwest];
    let flow = compute_d8_flow_directions(&terrain.elevations);
    let mut reached = vec![false; width * height];
    let mut zones = 0;
    for row in 1..height - 1 {
        for col in 1..width - 1 {
            if !is_release_zone(&terrain, &sectors, row, col) {
                continue;
            }
            zones += 1;
            reached[row * width + col] = true;
            let (mut r, mut c) = (row, col);
            for _step in 0..50 {
                let dir = flow.get(r, c);
                if dir == NO_FLOW {
                    break;
                }
                let (nr, nc) = neighbour(r, c, dir);
                if nr == 0 || nr >= height - 1 || nc == 0 || nc >= width - 1 {
                    break;
                }
                r = nr;
                c = nc;
                reached[r * width + c] = true;
            }
        }
    }
    assert!(zones > 10);
    let runout = compute_runout_zones(&terrain, &sectors);
    let mut marked = 0;
    for row in 0..height {
        for col in 0..width {
            let value = runout.get(row, col);
            assert!(0 <= value && value <= 1000000);
            if value > 0 {
                marked += 1;
                let mut near = false;
                for r in 0..height {
                    for c in 0..width {
                        if reached[r * width + c] && r.abs_diff(row) + c.abs_diff(col) <= 2 {
                            near = true;
                        }
                    }
                }
                assert!(near, "runout at ({}, {}) has no origin", row, col);
            }
        }
    }
    assert!(marked > 10);
}

use jp_mesh::calcs::to_125m::CodeTo125m;
use jp_mesh::calcs::to_2km::CodeTo2km;
use jp_mesh::calcs::to_5km::CodeTo5km;
use jp_mesh::error::CodeError;
use jp_mesh::geom::{Coordinates, Rect};
use jp_mesh::mesh_code::{steps, JPMeshCode};
use jp_mesh::mesh_type::{in_domain, JPMeshType};

const EPSILON: f64 = 1e-6;

// small offset for checking coordinate inside the mesh
const INNER_OFFSET: f64 = 0.000003;

/// Degrees to the micro-arc-seconds that the library counts in.
fn units(degrees: f64) -> i64 {
    (degrees * 3_600_000_000.0).round() as i64
}

/// Micro-arc-seconds to degrees.
fn degrees(units: i64) -> f64 {
    units as f64 / 3_600_000_000.0
}

fn coordinates(lng: f64, lat: f64) -> Coordinates {
    Coordinates::new(units(lng), units(lat))
}

fn approx_eq(a: f64, b: f64) -> bool {
    (a - b).abs() < EPSILON
}

fn all_levels() -> Vec<JPMeshType> {
    vec![
        JPMeshType::Mesh80km,
        JPMeshType::Mesh10km,
        JPMeshType::Mesh5km,
        JPMeshType::Mesh2km,
        JPMeshType::Mesh1km,
        JPMeshType::Mesh500m,
        JPMeshType::Mesh250m,
        JPMeshType::Mesh125m,
    ]
}

#[derive(Debug)]
struct TestCase {
    mesh_code_number: u64,
    mesh_type: JPMeshType,
    left_bottom: (f64, f64),
}

impl TestCase {
    fn inner_coord(&self) -> Coordinates {
        coordinates(
            self.left_bottom.0 + INNER_OFFSET,
            self.left_bottom.1 + INNER_OFFSET,
        )
    }
}

fn get_test_cases() -> Vec<TestCase> {
    return vec![
        TestCase {
            mesh_code_number: 64414277,
            mesh_type: JPMeshType::Mesh1km,
            left_bottom: (141.3375, 43.058333),
        },
        TestCase {
            mesh_code_number: 61401589,
            mesh_type: JPMeshType::Mesh1km,
            left_bottom: (140.7375, 40.816667),
        },
        TestCase {
            mesh_code_number: 59414142,
            mesh_type: JPMeshType::Mesh1km,
            left_bottom: (141.15, 39.7),
        },
        TestCase {
            mesh_code_number: 57403629,
            mesh_type: JPMeshType::Mesh1km,
            left_bottom: (140.8625, 38.266667),
        },
    ];
}

#[test]
fn test_mesh_code_generation() {
    for test_case in get_test_cases() {
        let inner_coord = test_case.inner_coord();
        let mesh_code = JPMeshCode::new(inner_coord, test_case.mesh_type);

        let actual_number = mesh_code.to_number();
        assert_eq!(actual_number, test_case.mesh_code_number);
    }
}

#[test]
fn test_mesh_code_bounds() {
    for test_case in get_test_cases() {
        let inner_coord = test_case.inner_coord();
        let mesh_code = JPMeshCode::new(inner_coord, test_case.mesh_type);

        let bounds = mesh_code.to_bounds();
        let min_coord = bounds.min();
        let max_coord = bounds.max();

        // check if the bottom left coordinate is correct
        assert!(approx_eq(degrees(min_coord.lng), test_case.left_bottom.0));
        assert!(approx_eq(degrees(min_coord.lat), test_case.left_bottom.1));

        // check if the size of the area is correct
        assert!(approx_eq(
            degrees(max_coord.lng) - degrees(min_coord.lng),
            45.0 / 3600.0
        ));
        assert!(approx_eq(
            degrees(max_coord.lat) - degrees(min_coord.lat),
            30.0 / 3600.0
        ));
    }
}

#[test]
fn test_mesh_code_from_number_to_number() {
    for test_case in get_test_cases() {
        let mesh_code =
            JPMeshCode::from_number(test_case.mesh_code_number, test_case.mesh_type).unwrap();
        let number = mesh_code.to_number();
        assert_eq!(number, test_case.mesh_code_number);
    }
}

#[test]
fn mesh_code_scenario_sapporo_1km() {
    let point = coordinates(141.3375 + INNER_OFFSET, 43.058333 + INNER_OFFSET);
    let mesh_code = JPMeshCode::new(point, JPMeshType::Mesh1km);
    assert_eq!(mesh_code.to_number(), 64414277);

    let bounds = mesh_code.to_bounds();
    assert!(approx_eq(degrees(bounds.min().lng), 141.3375));
    assert!(approx_eq(degrees(bounds.min().lat), 43.058333));
    assert_eq!(bounds.min(), Coordinates::new(508_815_000_000, 155_010_000_000));
    assert_eq!(bounds.max().lng - bounds.min().lng, 45_000_000);
    assert_eq!(bounds.max().lat - bounds.min().lat, 30_000_000);
    assert!(approx_eq(
        degrees(bounds.max().lng - bounds.min().lng),
        45.0 / 3600.0
    ));
    assert!(approx_eq(
        degrees(bounds.max().lat - bounds.min().lat),
        30.0 / 3600.0
    ));
    assert!(mesh_code.is_inside(point));
}

#[test]
fn mesh_code_numbers_at_every_level() {
    // Tokyo station.
    let point = coordinates(139.767125, 35.681236);
    let expected: Vec<(JPMeshType, u64)> = vec![
        (JPMeshType::Mesh80km, 5339),
        (JPMeshType::Mesh10km, 533946),
        (JPMeshType::Mesh5km, 5339461),
        (JPMeshType::Mesh2km, 533946005),
        (JPMeshType::Mesh1km, 53394611),
        (JPMeshType::Mesh500m, 533946113),
        (JPMeshType::Mesh250m, 5339461132),
        (JPMeshType::Mesh125m, 53394611323),
    ];
    for (mesh_type, number) in expected {
        let mesh_code = JPMeshCode::new(point, mesh_type);
        assert_eq!(mesh_code.to_number(), number);
        assert_eq!(mesh_code.mesh_type(), mesh_type);
        assert!(mesh_code.is_inside(point));
        assert_eq!(JPMeshCode::from_number(number, mesh_type), Ok(mesh_code));
    }
}

#[test]
fn mesh_code_variants_follow_the_family() {
    let point = coordinates(139.767125, 35.681236);
    assert_eq!(
        JPMeshCode::new(point, JPMeshType::Mesh1km),
        JPMeshCode::To125m {
            code: CodeTo125m::from_number(53394611, 8).unwrap(),
            mesh_type: JPMeshType::Mesh1km,
        }
    );
    assert_eq!(
        JPMeshCode::new(point, JPMeshType::Mesh10km),
        JPMeshCode::To5km {
            code: CodeTo5km::from_number(533946, 6).unwrap(),
            mesh_type: JPMeshType::Mesh10km,
        }
    );
    assert_eq!(
        JPMeshCode::new(point, JPMeshType::Mesh2km),
        JPMeshCode::To2km {
            code: CodeTo2km::from_number(533946005, 9).unwrap(),
            mesh_type: JPMeshType::Mesh2km,
        }
    );
}

#[test]
fn mesh_code_round_trip_on_a_grid_of_points() {
    for mesh_type in all_levels() {
        let mut lat = 24.0;
        while lat < 46.0 {
            let mut lng = 122.0;
            while lng < 154.0 {
                let point = coordinates(lng, lat);
                assert!(in_domain(point));
                let mesh_code = JPMeshCode::new(point, mesh_type);
                let bounds = mesh_code.to_bounds();
                assert!(bounds.includes(point));
                assert!(mesh_code.is_inside(point));

                // Every corner region of the cell has the same code.
                let min = bounds.min();
                let max = bounds.max();
                let inside = vec![
                    min,
                    Coordinates::new(max.lng - 1, min.lat),
                    Coordinates::new(min.lng, max.lat - 1),
                    Coordinates::new(max.lng - 1, max.lat - 1),
                    bounds.center(),
                ];
                for other in inside {
                    assert!(bounds.includes(other));
                    assert_eq!(JPMeshCode::new(other, mesh_type), mesh_code);
                }
                // The maximum corner belongs to another cell.
                assert!(!bounds.includes(max));
                assert_ne!(JPMeshCode::new(max, mesh_type), mesh_code);
                lng += 1.7;
            }
            lat += 1.3;
        }
    }
}

#[test]
fn mesh_code_width_is_exact_at_every_level() {
    let point = coordinates(135.5, 34.7);
    for mesh_type in all_levels() {
        let bounds = JPMeshCode::new(point, mesh_type).to_bounds();
        assert_eq!(
            bounds.max().lng - bounds.min().lng,
            mesh_type.lng_interval()
        );
        assert_eq!(
            bounds.max().lat - bounds.min().lat,
            mesh_type.lat_interval()
        );
    }
    // A code that no point of the grid has still gets a cell of the level's size.
    let odd = JPMeshCode::from_number(644199779, JPMeshType::Mesh500m).unwrap();
    let bounds = odd.to_bounds();
    assert_eq!(bounds.max().lng - bounds.min().lng, 22_500_000);
    assert_eq!(bounds.max().lat - bounds.min().lat, 15_000_000);
}

#[test]
fn mesh_code_number_round_trip() {
    let point = coordinates(141.3375 + INNER_OFFSET, 43.058333 + INNER_OFFSET);
    for mesh_type in all_levels() {
        let mesh_code = JPMeshCode::new(point, mesh_type);
        assert_eq!(
            JPMeshCode::from_number(mesh_code.to_number(), mesh_type),
            Ok(mesh_code)
        );
    }
    for number in [64414277u64, 6441, 644142, 64414277312, 1, 99999999999] {
        for mesh_type in all_levels() {
            if let Ok(mesh_code) = JPMeshCode::from_number(number, mesh_type) {
                assert_eq!(
                    JPMeshCode::from_number(mesh_code.to_number(), mesh_type),
                    Ok(mesh_code)
                );
            }
        }
    }
}

#[test]
fn mesh_code_from_number_aligns_and_cuts() {
    // A code shorter than the level's is read from the left edge.
    let short = JPMeshCode::from_number(6441, JPMeshType::Mesh1km).unwrap();
    assert_eq!(short.to_number(), 64410000);
    // Of a longer code the digits after the level's are dropped.
    let long = JPMeshCode::from_number(64414277312, JPMeshType::Mesh1km).unwrap();
    assert_eq!(long.to_number(), 64414277);
    assert_eq!(long, JPMeshCode::from_number(64414277, JPMeshType::Mesh1km).unwrap());
    // A quadrant digit that is zero is read as the first quadrant.
    let filled = JPMeshCode::from_number(644142770, JPMeshType::Mesh500m).unwrap();
    assert_eq!(filled.to_number(), 644142771);
}

#[test]
fn mesh_code_from_number_errors() {
    for mesh_type in all_levels() {
        assert_eq!(
            JPMeshCode::from_number(0, mesh_type),
            Err(CodeError::Empty)
        );
    }
    // Eleven digits is the most for the levels from 1 km down.
    assert!(JPMeshCode::from_number(99_999_999_999, JPMeshType::Mesh125m).is_ok());
    assert_eq!(
        JPMeshCode::from_number(100_000_000_000, JPMeshType::Mesh125m),
        Err(CodeError::TooLong)
    );
    assert_eq!(
        JPMeshCode::from_number(100_000_000_000, JPMeshType::Mesh1km),
        Err(CodeError::TooLong)
    );
    // Seven digits for the 80 km, 10 km and 5 km levels.
    assert!(JPMeshCode::from_number(9_999_999, JPMeshType::Mesh80km).is_ok());
    assert_eq!(
        JPMeshCode::from_number(10_000_000, JPMeshType::Mesh80km),
        Err(CodeError::TooLong)
    );
    assert_eq!(
        JPMeshCode::from_number(53394611, JPMeshType::Mesh10km),
        Err(CodeError::TooLong)
    );
    // Nine digits for the 2 km level.
    assert!(JPMeshCode::from_number(999_999_999, JPMeshType::Mesh2km).is_ok());
    assert_eq!(
        JPMeshCode::from_number(1_000_000_000, JPMeshType::Mesh2km),
        Err(CodeError::TooLong)
    );
}

#[test]
fn mesh_code_bounds_of_the_side_levels() {
    let five = JPMeshCode::from_number(5339463, JPMeshType::Mesh5km).unwrap();
    let bounds = five.to_bounds();
    // Row 53, 10 km row 4, northern half; column 39, 10 km column 6, western half.
    assert_eq!(
        bounds.min().lat,
        53 * 2_400_000_000 + 4 * 300_000_000 + 150_000_000
    );
    assert_eq!(
        bounds.min().lng,
        360_000_000_000 + 39 * 3_600_000_000 + 6 * 450_000_000
    );
    assert_eq!(bounds.max().lat - bounds.min().lat, 150_000_000);
    assert_eq!(bounds.max().lng - bounds.min().lng, 225_000_000);

    let two = JPMeshCode::from_number(533946245, JPMeshType::Mesh2km).unwrap();
    let bounds = two.to_bounds();
    assert_eq!(
        bounds.min().lat,
        53 * 2_400_000_000 + 4 * 300_000_000 + 1 * 60_000_000
    );
    assert_eq!(
        bounds.min().lng,
        360_000_000_000 + 39 * 3_600_000_000 + 6 * 450_000_000 + 2 * 90_000_000
    );
    assert_eq!(bounds.max().lat - bounds.min().lat, 60_000_000);
    assert_eq!(bounds.max().lng - bounds.min().lng, 90_000_000);
}

#[test]
fn mesh_code_bounds_of_quadrants() {
    let base = JPMeshCode::from_number(53394611, JPMeshType::Mesh1km)
        .unwrap()
        .to_bounds()
        .min();
    let expected: Vec<(u64, i64, i64)> = vec![
        (533946111, 0, 0),
        (533946112, 22_500_000, 0),
        (533946113, 0, 15_000_000),
        (533946114, 22_500_000, 15_000_000),
    ];
    for (number, east, north) in expected {
        let bounds = JPMeshCode::from_number(number, JPMeshType::Mesh500m)
            .unwrap()
            .to_bounds();
        assert_eq!(bounds.min().lng, base.lng + east);
        assert_eq!(bounds.min().lat, base.lat + north);
    }
    let finest = JPMeshCode::from_number(53394611324, JPMeshType::Mesh125m)
        .unwrap()
        .to_bounds();
    assert_eq!(finest.min().lng, base.lng + 11_250_000 + 5_625_000);
    assert_eq!(finest.min().lat, base.lat + 15_000_000 + 3_750_000);
}

#[test]
fn steps_round_up() {
    assert_eq!(steps(10, 10, 4), 0);
    assert_eq!(steps(10, 5, 4), 0);
    assert_eq!(steps(10, 11, 4), 1);
    assert_eq!(steps(10, 14, 4), 1);
    assert_eq!(steps(10, 15, 4), 2);
    assert_eq!(steps(0, i64::MAX, 1), i64::MAX);
    assert_eq!(steps(0, i64::MAX, 2), i64::MAX / 2 + 1);
    assert_eq!(steps(5, i64::MIN, 3), 0);
}

#[test]
fn from_on_bounds_over_whole_cells() {
    let mesh_type = JPMeshType::Mesh1km;
    let corner = JPMeshCode::new(coordinates(139.767125, 35.681236), mesh_type)
        .to_bounds()
        .min();
    for k in 0..4i64 {
        let bounds = Rect::new(
            corner,
            Coordinates::new(
                corner.lng + k * mesh_type.lng_interval(),
                corner.lat + k * mesh_type.lat_interval(),
            ),
        );
        assert!(JPMeshCode::lattice_fits(bounds, mesh_type));
        let codes = JPMeshCode::from_on_bounds(bounds, mesh_type);
        assert_eq!(codes.len() as i64, (k + 1) * (k + 1));
    }
}

#[test]
fn from_on_bounds_is_row_major() {
    let mesh_type = JPMeshType::Mesh1km;
    let min = coordinates(139.767125, 35.681236);
    let max = Coordinates::new(min.lng + 2 * 45_000_000, min.lat + 30_000_000);
    let codes = JPMeshCode::from_on_bounds(Rect::new(min, max), mesh_type);
    let numbers: Vec<u64> = codes.iter().map(|code| code.to_number()).collect();
    assert_eq!(
        numbers,
        vec![53394611, 53394612, 53394613, 53394621, 53394622, 53394623]
    );
    for code in codes {
        assert_eq!(code.mesh_type(), mesh_type);
    }
}

#[test]
fn from_on_bounds_rounds_the_span_up() {
    let mesh_type = JPMeshType::Mesh500m;
    let min = coordinates(139.767125, 35.681236);
    // A little more than one cell wide, a little less than one cell high.
    let max = Coordinates::new(min.lng + 22_500_001, min.lat + 14_999_999);
    let codes = JPMeshCode::from_on_bounds(Rect::new(min, max), mesh_type);
    assert_eq!(codes.len(), 3 * 2);
}

#[test]
fn from_on_bounds_of_a_rectangle_without_extent() {
    let mesh_type = JPMeshType::Mesh10km;
    let point = coordinates(139.767125, 35.681236);
    let here = JPMeshCode::new(point, mesh_type);

    let codes = JPMeshCode::from_on_bounds(Rect::new(point, point), mesh_type);
    assert_eq!(codes, vec![here]);

    // A maximum corner below the minimum corner counts as no extent.
    let inverted = Rect::new(point, coordinates(130.0, 30.0));
    assert!(JPMeshCode::lattice_fits(inverted, mesh_type));
    assert_eq!(JPMeshCode::from_on_bounds(inverted, mesh_type), vec![here]);

    // No extent on one axis only: one row.
    let flat = Rect::new(point, Coordinates::new(point.lng + 450_000_000, point.lat));
    let codes = JPMeshCode::from_on_bounds(flat, mesh_type);
    assert_eq!(codes.len(), 2);
    assert_eq!(codes[0], here);
    assert_eq!(codes[1].to_number(), 533947);
}

#[test]
fn lattice_fits_only_inside_the_covered_region() {
    let mesh_type = JPMeshType::Mesh80km;
    let inside = Rect::new(coordinates(139.0, 35.0), coordinates(141.0, 37.0));
    assert!(JPMeshCode::lattice_fits(inside, mesh_type));

    // The minimum corner lies outside.
    let west = Rect::new(coordinates(99.0, 35.0), coordinates(141.0, 37.0));
    assert!(!JPMeshCode::lattice_fits(west, mesh_type));
    let south = Rect::new(coordinates(139.0, 6.0), coordinates(141.0, 37.0));
    assert!(!JPMeshCode::lattice_fits(south, mesh_type));

    // The last lattice point lies outside.
    let north = Rect::new(coordinates(139.0, 65.0), coordinates(141.0, 66.9));
    assert!(!JPMeshCode::lattice_fits(north, mesh_type));
    let east = Rect::new(coordinates(198.5, 35.0), coordinates(200.5, 37.0));
    assert!(!JPMeshCode::lattice_fits(east, mesh_type));
    let far = Rect::new(
        coordinates(139.0, 35.0),
        Coordinates::new(i64::MAX, i64::MAX),
    );
    assert!(!JPMeshCode::lattice_fits(far, JPMeshType::Mesh125m));

    // The last row still fits when it ends at the edge of the region.
    let edge = Rect::new(coordinates(198.5, 65.0), coordinates(199.5, 66.0));
    assert!(JPMeshCode::lattice_fits(edge, mesh_type));
    let codes = JPMeshCode::from_on_bounds(edge, mesh_type);
    let numbers: Vec<u64> = codes.iter().map(|code| code.to_number()).collect();
    assert_eq!(numbers, vec![9798, 9799, 9898, 9899, 9998, 9999]);
}

#[test]
fn in_domain_edges() {
    assert!(in_domain(Coordinates::new(360_000_000_000, 24_000_000_000)));
    assert!(in_domain(Coordinates::new(719_999_999_999, 239_999_999_999)));
    assert!(!in_domain(Coordinates::new(359_999_999_999, 24_000_000_000)));
    assert!(!in_domain(Coordinates::new(360_000_000_000, 23_999_999_999)));
    assert!(!in_domain(Coordinates::new(720_000_000_000, 24_000_000_000)));
    assert!(!in_domain(Coordinates::new(360_000_000_000, 240_000_000_000)));
    assert!(!in_domain(Coordinates::new(-1, -1)));

    // The first and the last cell of the covered region.
    let first = JPMeshCode::new(
        Coordinates::new(360_000_000_000, 24_000_000_000),
        JPMeshType::Mesh125m,
    );
    assert_eq!(first.to_number(), 10000000111);
    let last = JPMeshCode::new(
        Coordinates::new(719_999_999_999, 239_999_999_999),
        JPMeshType::Mesh125m,
    );
    assert_eq!(last.to_number(), 99997799444);
}

#[test]
fn is_wf_tells_hand_made_cells_apart() {
    let point = coordinates(139.767125, 35.681236);
    for mesh_type in all_levels() {
        assert!(JPMeshCode::new(point, mesh_type).is_well_formed());
    }
    assert!(JPMeshCode::from_number(64414277, JPMeshType::Mesh1km)
        .unwrap()
        .is_well_formed());

    // The level does not belong to the family of the code number.
    let code = CodeTo5km::from_number(533946, 6).unwrap();
    let wrong_family = JPMeshCode::To5km {
        code,
        mesh_type: JPMeshType::Mesh1km,
    };
    assert!(!wrong_family.is_well_formed());
    // The code number of a 1 km cell is also that of its first quadrant.
    let code = CodeTo125m::from_number(53394611, 8).unwrap();
    let wrong_level = JPMeshCode::To125m {
        code,
        mesh_type: JPMeshType::Mesh500m,
    };
    assert!(wrong_level.is_well_formed());
    // The code number has a digit after those of the level.
    let code = CodeTo125m::from_number(533946113, 9).unwrap();
    let too_fine = JPMeshCode::To125m {
        code,
        mesh_type: JPMeshType::Mesh1km,
    };
    assert!(!too_fine.is_well_formed());
    // The code number is not of full width.
    let empty = JPMeshCode::To2km {
        code: CodeTo2km::default(),
        mesh_type: JPMeshType::Mesh2km,
    };
    assert!(!empty.is_well_formed());
}

use jp_mesh::geom::Coordinates;
use jp_mesh::mesh_code::JPMesh;
use jp_mesh::mesh_type::JPMeshType;

const EPSILON: f64 = 1e-6;

// small offset for checking coordinate inside the mesh
const INNER_OFFSET: f64 = 0.000003;

/// Degrees to the micro-arc-seconds that the library counts in.
fn units(degrees: f64) -> i64 {
    (degrees * 3_600_000_000.0).round() as i64
}

/// Micro-arc-seconds to degrees.
fn degrees(units: i64) -> f64 {
    units as f64 / 3_600_000_000.0
}

fn coordinates(lng: f64, lat: f64) -> Coordinates {
    Coordinates::new(units(lng), units(lat))
}

fn approx_eq(a: f64, b: f64) -> bool {
    (a - b).abs() < EPSILON
}

#[derive(Debug)]
struct TestCase {
    mesh_number: u64,
    mesh_type: JPMeshType,
    left_bottom: (f64, f64),
}

impl TestCase {
    fn inner_coord(&self) -> Coordinates {
        coordinates(
            self.left_bottom.0 + INNER_OFFSET,
            self.left_bottom.1 + INNER_OFFSET,
        )
    }
}

fn get_test_cases() -> Vec<TestCase> {
    return vec![
        TestCase {
            mesh_number: 64414277,
            mesh_type: JPMeshType::Mesh1km,
            left_bottom: (141.3375, 43.058333),
        },
        TestCase {
            mesh_number: 61401589,
            mesh_type: JPMeshType::Mesh1km,
            left_bottom: (140.7375, 40.816667),
        },
        TestCase {
            mesh_number: 59414142,
            mesh_type: JPMeshType::Mesh1km,
            left_bottom: (141.15, 39.7),
        },
        TestCase {
            mesh_number: 57403629,
            mesh_type: JPMeshType::Mesh1km,
            left_bottom: (140.8625, 38.266667),
        },
    ];
}

#[test]
fn test_mesh_generation() {
    for test_case in get_test_cases() {
        let inner_coord = test_case.inner_coord();
        let mesh = JPMesh::new(inner_coord, test_case.mesh_type);

        let actual_number = mesh.to_number();
        assert_eq!(actual_number, test_case.mesh_number);
    }
}

#[test]
fn test_mesh_bounds() {
    for test_case in get_test_cases() {
        let inner_coord = test_case.inner_coord();
        let mesh = JPMesh::new(inner_coord, test_case.mesh_type);

        let bounds = mesh.to_bounds();
        let min_coord = bounds.min();
        let max_coord = bounds.max();

        // check if the bottom left coordinate is correct
        assert!(approx_eq(degrees(min_coord.lng), test_case.left_bottom.0));
        assert!(approx_eq(degrees(min_coord.lat), test_case.left_bottom.1));

        // check if the size of the area is correct
        assert!(approx_eq(
            degrees(max_coord.lng) - degrees(min_coord.lng),
            45.0 / 3600.0
        ));
        assert!(approx_eq(
            degrees(max_coord.lat) - degrees(min_coord.lat),
            30.0 / 3600.0
        ));
    }
}

#[test]
fn test_mesh_from_number_to_number() {
    for test_case in get_test_cases() {
        let mesh = JPMesh::from_number(test_case.mesh_number, test_case.mesh_type).unwrap();
        let number = mesh.to_number();
        assert_eq!(number, test_case.mesh_number);
    }
}

#[test]
fn test_mesh_corner() {
    let mesh = JPMesh::new(coordinates(141.15, 39.7), JPMeshType::Mesh1km);
    let bounds = mesh.to_bounds();
    let min_coord = bounds.min();

    assert!(approx_eq(degrees(min_coord.lng), 141.15));
    assert!(approx_eq(degrees(min_coord.lat), 39.7));
}

#[test]
fn mesh_of_tokyo_station() {
    let coords = coordinates(139.767125, 35.681236);
    let mesh = JPMesh::new(coords, JPMeshType::Mesh1km);
    assert_eq!(mesh.to_number(), 53394611);
    assert!(mesh.to_bounds().includes(coords));
    assert_eq!(mesh.mesh_type(), JPMeshType::Mesh1km);
}

#[test]
fn mesh_corner_is_exact() {
    let corner = Coordinates::new(508_140_000_000, 142_920_000_000);
    let mesh = JPMesh::new(corner, JPMeshType::Mesh1km);
    assert_eq!(mesh.to_number(), 59414142);
    assert_eq!(mesh.to_bounds().min(), corner);
    assert_eq!(
        mesh.to_bounds().max(),
        Coordinates::new(508_185_000_000, 142_950_000_000)
    );

    // One unit south or west of the corner lies in the neighbouring cell.
    let south = JPMesh::new(
        Coordinates::new(508_140_000_000, 142_919_999_999),
        JPMeshType::Mesh1km,
    );
    assert_eq!(south.to_number(), 59414132);
    let west = JPMesh::new(
        Coordinates::new(508_139_999_999, 142_920_000_000),
        JPMeshType::Mesh1km,
    );
    assert_eq!(west.to_number(), 59414141);
}

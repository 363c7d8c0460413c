use jp_mesh::geom::Coordinates;
use jp_mesh::mesh_code::JPMeshCode;
use jp_mesh::mesh_type::JPMeshType;

const EPSILON: f64 = 1e-6;

// small offset for checking coordinate inside the mesh
const INNER_OFFSET: f64 = 0.000003;

fn units(degrees: f64) -> i64 {
    (degrees * 3_600_000_000.0).round() as i64
}

fn degrees(units: i64) -> f64 {
    units as f64 / 3_600_000_000.0
}

fn coordinates(lng: f64, lat: f64) -> Coordinates {
    Coordinates::new(units(lng), units(lat))
}

fn hierarchy() -> Vec<JPMeshType> {
    vec![
        JPMeshType::Mesh80km,
        JPMeshType::Mesh10km,
        JPMeshType::Mesh1km,
        JPMeshType::Mesh500m,
        JPMeshType::Mesh250m,
        JPMeshType::Mesh125m,
    ]
}

#[test]
fn children_scenario_1km_to_500m() {
    let inner = coordinates(141.3375 + INNER_OFFSET, 43.058333 + INNER_OFFSET);
    let cell = JPMeshCode::from_number(64414277, JPMeshType::Mesh1km).unwrap();
    let children = cell.children();
    assert_eq!(children.len(), 4);
    let numbers: Vec<u64> = children.iter().map(|child| child.to_number()).collect();
    assert_eq!(numbers, vec![644142771, 644142772, 644142773, 644142774]);

    let mut holding = 0;
    for child in children {
        assert_eq!(child.mesh_type(), JPMeshType::Mesh500m);
        let bounds = child.to_bounds();
        assert!(
            (degrees(bounds.max().lng - bounds.min().lng) - 22.5 / 3600.0).abs() < EPSILON
        );
        assert!(
            (degrees(bounds.max().lat - bounds.min().lat) - 15.0 / 3600.0).abs() < EPSILON
        );
        assert_eq!(bounds.max().lng - bounds.min().lng, 22_500_000);
        assert_eq!(bounds.max().lat - bounds.min().lat, 15_000_000);
        if child.is_inside(inner) {
            holding += 1;
            assert_eq!(child.to_number(), 644142771);
        }
    }
    assert_eq!(holding, 1);
}

#[test]
fn parent_strips_the_last_digit_group() {
    let cell = JPMeshCode::from_number(53394611324, JPMeshType::Mesh125m).unwrap();
    let quarter = cell.parent().unwrap();
    assert_eq!(quarter.mesh_type(), JPMeshType::Mesh250m);
    assert_eq!(quarter.to_number(), 5339461132);
    let half = quarter.parent().unwrap();
    assert_eq!(half.mesh_type(), JPMeshType::Mesh500m);
    assert_eq!(half.to_number(), 533946113);
    let standard = half.parent().unwrap();
    assert_eq!(standard.mesh_type(), JPMeshType::Mesh1km);
    assert_eq!(standard.to_number(), 53394611);
    let secondary = standard.parent().unwrap();
    assert_eq!(secondary.mesh_type(), JPMeshType::Mesh10km);
    assert_eq!(secondary.to_number(), 533946);
    let primary = secondary.parent().unwrap();
    assert_eq!(primary.mesh_type(), JPMeshType::Mesh80km);
    assert_eq!(primary.to_number(), 5339);
    assert_eq!(primary.parent(), None);
}

#[test]
fn parent_digit_count_drops_by_the_group_width() {
    let point = coordinates(139.767125, 35.681236);
    for mesh_type in hierarchy() {
        let cell = JPMeshCode::new(point, mesh_type);
        match cell.parent() {
            None => assert_eq!(mesh_type, JPMeshType::Mesh80km),
            Some(parent) => {
                let group: usize = if mesh_type.group_divisor() == 100 { 2 } else { 1 };
                assert_eq!(
                    parent.mesh_type().code_length(),
                    mesh_type.code_length() - group
                );
                assert_eq!(
                    parent.to_number(),
                    cell.to_number() / mesh_type.group_divisor()
                );
                // The parent's cell holds the child's cell.
                let outer = parent.to_bounds();
                let inner = cell.to_bounds();
                assert!(outer.min().lng <= inner.min().lng);
                assert!(outer.min().lat <= inner.min().lat);
                assert!(inner.max().lng <= outer.max().lng);
                assert!(inner.max().lat <= outer.max().lat);
                assert_eq!(parent, JPMeshCode::new(point, parent.mesh_type()));
            }
        }
    }
}

#[test]
fn children_counts() {
    let point = coordinates(139.767125, 35.681236);
    let expected: Vec<(JPMeshType, usize)> = vec![
        (JPMeshType::Mesh80km, 64),
        (JPMeshType::Mesh10km, 100),
        (JPMeshType::Mesh1km, 4),
        (JPMeshType::Mesh500m, 4),
        (JPMeshType::Mesh250m, 4),
        (JPMeshType::Mesh125m, 0),
        (JPMeshType::Mesh5km, 0),
        (JPMeshType::Mesh2km, 0),
    ];
    for (mesh_type, count) in expected {
        let cell = JPMeshCode::new(point, mesh_type);
        assert_eq!(cell.children().len(), count);
    }
}

#[test]
fn children_of_an_80km_cell() {
    let cell = JPMeshCode::from_number(5339, JPMeshType::Mesh80km).unwrap();
    let children = cell.children();
    assert_eq!(children.len(), 64);
    assert_eq!(children[0].to_number(), 533900);
    assert_eq!(children[7].to_number(), 533907);
    assert_eq!(children[8].to_number(), 533910);
    assert_eq!(children[63].to_number(), 533977);
    let bounds = cell.to_bounds();
    for (index, child) in children.iter().enumerate() {
        assert_eq!(child.mesh_type(), JPMeshType::Mesh10km);
        let inner = child.to_bounds();
        let row = (index / 8) as i64;
        let column = (index % 8) as i64;
        assert_eq!(inner.min().lat, bounds.min().lat + row * 300_000_000);
        assert_eq!(inner.min().lng, bounds.min().lng + column * 450_000_000);
    }
}

#[test]
fn children_of_a_10km_cell() {
    let cell = JPMeshCode::from_number(533946, JPMeshType::Mesh10km).unwrap();
    let children = cell.children();
    assert_eq!(children.len(), 100);
    assert_eq!(children[0].to_number(), 53394600);
    assert_eq!(children[11].to_number(), 53394611);
    assert_eq!(children[99].to_number(), 53394699);
    let bounds = cell.to_bounds();
    for (index, child) in children.iter().enumerate() {
        assert_eq!(child.mesh_type(), JPMeshType::Mesh1km);
        let inner = child.to_bounds();
        let row = (index / 10) as i64;
        let column = (index % 10) as i64;
        assert_eq!(inner.min().lat, bounds.min().lat + row * 30_000_000);
        assert_eq!(inner.min().lng, bounds.min().lng + column * 45_000_000);
    }
}

#[test]
fn parent_of_every_child_is_the_cell() {
    let point = coordinates(141.3375 + INNER_OFFSET, 43.058333 + INNER_OFFSET);
    for mesh_type in hierarchy() {
        let cell = JPMeshCode::new(point, mesh_type);
        for child in cell.children() {
            assert_eq!(child.parent(), Some(cell));
        }
    }
}

#[test]
fn children_of_the_parent_hold_the_cell() {
    let points = vec![
        coordinates(141.3375 + INNER_OFFSET, 43.058333 + INNER_OFFSET),
        coordinates(139.767125, 35.681236),
        coordinates(127.68, 26.21),
    ];
    for point in points {
        for mesh_type in hierarchy() {
            let cell = JPMeshCode::new(point, mesh_type);
            if let Some(parent) = cell.parent() {
                let children = parent.children();
                assert_eq!(
                    children.iter().filter(|child| **child == cell).count(),
                    1
                );
                // Exactly one child holds the point.
                assert_eq!(
                    children
                        .iter()
                        .filter(|child| child.is_inside(point))
                        .count(),
                    1
                );
            }
        }
    }
}

#[test]
fn side_levels_stand_beside_the_hierarchy() {
    let point = coordinates(139.767125, 35.681236);
    for mesh_type in [JPMeshType::Mesh5km, JPMeshType::Mesh2km] {
        let cell = JPMeshCode::new(point, mesh_type);
        assert_eq!(cell.parent(), None);
        assert!(cell.children().is_empty());
    }
}

#[test]
fn a_code_outside_the_grid_is_no_child_of_its_parent() {
    // The quadrant digit 7 names no quarter of a cell.
    let odd = JPMeshCode::from_number(533946117, JPMeshType::Mesh500m).unwrap();
    let parent = odd.parent().unwrap();
    assert_eq!(parent.to_number(), 53394611);
    assert!(!parent.children().contains(&odd));
}

use fractal_slicer::generate_fractal;
use fractal_slicer::generate_vertices;
use fractal_slicer::Point3;
use fractal_slicer::Vertex;

#[test]
fn generate_vertices_test() {
    let lattice = vec![Point3 { x: 1, y: 1, z: 1 }];
    let vertices = generate_vertices(&lattice);
    assert!(vertices.len() == lattice.len() * 8);
}

#[test]
fn single_point_corner_values() {
    // Vertex coordinates are held in half-units: the corners of the cell
    // centred on (1, 1, 1) are every combination of 0.5 and 1.5, stored as
    // the doubled values 1 and 3.
    let lattice = vec![Point3 { x: 1, y: 1, z: 1 }];
    let vertices = generate_vertices(&lattice);
    assert_eq!(vertices.len(), 8);
    for x in [1i64, 3] {
        for y in [1i64, 3] {
            for z in [1i64, 3] {
                assert!(vertices.contains(&Vertex { x, y, z }));
            }
        }
    }
}

#[test]
fn adjacent_points_share_corners() {
    // Two cells sharing a face share its four corners: 16 candidate
    // vertices deduplicate to 12.
    let lattice = vec![Point3 { x: 1, y: 1, z: 1 }, Point3 { x: 2, y: 1, z: 1 }];
    let vertices = generate_vertices(&lattice);
    assert!(vertices.len() < 16);
    assert_eq!(vertices.len(), 12);
}

#[test]
fn vertex_set_invariant_to_input_order() {
    let a = vec![Point3 { x: 0, y: 0, z: 0 }, Point3 { x: 2, y: 2, z: 2 }];
    let b = vec![Point3 { x: 2, y: 2, z: 2 }, Point3 { x: 0, y: 0, z: 0 }];
    let va: std::collections::HashSet<Vertex> = generate_vertices(&a).into_iter().collect();
    let vb: std::collections::HashSet<Vertex> = generate_vertices(&b).into_iter().collect();
    assert_eq!(va, vb);
}

#[test]
fn pipeline_level_one() {
    let (lattice, vertices) = generate_fractal(1);
    assert_eq!(lattice.len(), 20);
    // Never more than eight vertices per kept point, and strictly fewer
    // here, since adjacent cells share corners.
    assert!(vertices.len() <= 8 * lattice.len());
    assert!(vertices.len() < 8 * lattice.len());
    // No duplicates in the vertex list.
    let distinct: std::collections::HashSet<Vertex> = vertices.iter().copied().collect();
    assert_eq!(distinct.len(), vertices.len());
}

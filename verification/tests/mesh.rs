use terrain::math::vector::Vec3;
use terrain::mesh::{triangle_normal, Mesh, Vertex};

#[test]
fn test_triangle_normal() {}

#[test]
fn triangle_normal_of_a_right_triangle_points_along_z() {
    let zero = Vec3::new(0i64, 0, 0);
    let v1 = Vertex { position: Vec3::new(1i64, 1, 0), normal: zero };
    let v2 = Vertex { position: Vec3::new(4i64, 1, 0), normal: zero };
    let v3 = Vertex { position: Vec3::new(1i64, 3, 0), normal: zero };
    let normal = triangle_normal(&v1, &v2, &v3);
    assert_eq!(normal.array(), &[0, 0, 6]);
}

#[test]
fn barycentric_coordinates_take_the_triangles_apart() {
    let normal = Vec3::new(0i32, 0, 1);
    let corner = |x: i32, y: i32| Vertex { position: Vec3::new(x, y, 0), normal };
    let mesh = Mesh {
        name: "square".to_owned(),
        vertices: vec![corner(0, 0), corner(1, 0), corner(0, 1), corner(1, 1)],
        indices: vec![0, 1, 2, 2, 1, 3],
    };
    let apart = mesh.with_barycentric_coordinates(0, 1);
    assert_eq!(apart.name, "square");
    assert_eq!(apart.indices, vec![0, 1, 2, 3, 4, 5]);
    let positions: Vec<[i32; 3]> = apart.vertices.iter().map(|v| v.position.0).collect();
    assert_eq!(
        positions,
        vec![[0, 0, 0], [1, 0, 0], [0, 1, 0], [0, 1, 0], [1, 0, 0], [1, 1, 0]]
    );
    let weights: Vec<[i32; 3]> = apart.vertices.iter().map(|v| v.bary_coord.0).collect();
    assert_eq!(
        weights,
        vec![[0, 0, 1], [0, 1, 0], [1, 0, 0], [0, 0, 1], [0, 1, 0], [1, 0, 0]]
    );
    assert!(apart.vertices.iter().all(|v| v.normal.0 == [0, 0, 1]));
}

#[test]
fn a_mesh_without_triangles_stays_empty() {
    let mesh: Mesh<Vertex<i32>> = Mesh { name: "none".to_owned(), vertices: vec![], indices: vec![] };
    let apart = mesh.with_barycentric_coordinates(0, 1);
    assert!(apart.vertices.is_empty());
    assert!(apart.indices.is_empty());
}

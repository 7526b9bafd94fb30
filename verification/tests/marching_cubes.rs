use std::collections::HashMap;
use terrain::cube_tables::{EDGE_TABLE, ROW_END, TRIANGLE_TABLE};
use terrain::marching_cubes::{
    corner_offset, edge_axis, edge_corners, find_cube_index, is_flagged, marching_cubes, Axis,
    EdgeVertex, Lattice,
};
use terrain::mesh::Mesh;

/// The sample coordinates along one axis, as the loop `x + step < max` of a
/// mesher visits them: the start of every cell, and the end of the last.
fn axis_points(min: f64, max: f64, step: f64) -> Vec<f64> {
    let mut points = vec![min];
    let mut x = min;
    while x + step < max {
        x += step;
        points.push(x);
    }
    points
}

fn sample(
    field: &dyn Fn(f64, f64, f64) -> f64,
    min: [f64; 3],
    max: [f64; 3],
    step: f64,
    iso_value: f64,
) -> (Vec<Vec<Vec<bool>>>, [Vec<f64>; 3]) {
    let xs = axis_points(min[0], max[0], step);
    let ys = axis_points(min[1], max[1], step);
    let zs = axis_points(min[2], max[2], step);
    let below = xs
        .iter()
        .map(|x| {
            ys.iter().map(|y| zs.iter().map(|z| field(*x, *y, *z) < iso_value).collect()).collect()
        })
        .collect();
    (below, [xs, ys, zs])
}

fn mesh_of(below: Vec<Vec<Vec<bool>>>) -> Mesh<EdgeVertex> {
    marching_cubes(&Lattice::new(below).unwrap())
}

fn endpoints(v: &EdgeVertex) -> ((usize, usize, usize), (usize, usize, usize)) {
    let (start, end) = edge_corners(v.edge);
    let a = corner_offset(start);
    let b = corner_offset(end);
    ((v.x + a.0, v.y + a.1, v.z + a.2), (v.x + b.0, v.y + b.1, v.z + b.2))
}

fn single_cell(corners_below: [bool; 8]) -> Vec<Vec<Vec<bool>>> {
    let mut below = vec![vec![vec![false; 2]; 2]; 2];
    for corner in 0..8u8 {
        let (dx, dy, dz) = corner_offset(corner);
        below[dx][dy][dz] = corners_below[corner as usize];
    }
    below
}

#[test]
fn test() {
    // The square field in the box from (-5, -1, 0) to (5, 1, 1) with step 1
    // and iso-value 1: along z no cell fits, so there is nothing to mesh.
    let square = |x: f64, y: f64, z: f64| x * x + y * y + z * z;
    let (below, points) = sample(&square, [-5.0, -1.0, 0.0], [5.0, 1.0, 1.0], 1.0, 1.0);
    assert_eq!(points[0].len(), 10);
    assert_eq!(points[1].len(), 2);
    assert_eq!(points[2].len(), 1);
    let mesh = mesh_of(below);
    assert_eq!(mesh.name, "test");
    assert!(mesh.vertices.is_empty());
    assert!(mesh.indices.is_empty());
}

#[test]
fn corners_and_edges_are_numbered_after_bourke() {
    let offsets: Vec<(usize, usize, usize)> = (0..8u8).map(corner_offset).collect();
    assert_eq!(
        offsets,
        vec![
            (0, 0, 0),
            (1, 0, 0),
            (1, 1, 0),
            (0, 1, 0),
            (0, 0, 1),
            (1, 0, 1),
            (1, 1, 1),
            (0, 1, 1)
        ]
    );
    let corners: Vec<(u8, u8)> = (0..12u8).map(edge_corners).collect();
    assert_eq!(
        corners,
        vec![
            (0, 1),
            (1, 2),
            (2, 3),
            (3, 0),
            (4, 5),
            (5, 6),
            (6, 7),
            (7, 4),
            (0, 4),
            (1, 5),
            (2, 6),
            (3, 7)
        ]
    );
    let axes: Vec<Axis> = (0..12u8).map(edge_axis).collect();
    assert_eq!(
        axes,
        vec![
            Axis::X,
            Axis::Y,
            Axis::X,
            Axis::Y,
            Axis::X,
            Axis::Y,
            Axis::X,
            Axis::Y,
            Axis::Z,
            Axis::Z,
            Axis::Z,
            Axis::Z
        ]
    );
}

#[test]
fn cube_index_sets_the_bit_of_every_corner_below() {
    assert_eq!(find_cube_index(&[false; 8]), 0);
    assert_eq!(find_cube_index(&[true; 8]), 255);
    for corner in 0..8 {
        let mut below = [false; 8];
        below[corner] = true;
        assert_eq!(find_cube_index(&below), 1 << corner);
    }
    assert_eq!(
        find_cube_index(&[true, false, true, true, false, false, true, false]),
        0b0100_1101
    );
}

#[test]
fn is_flagged_reads_one_bit_of_the_mask() {
    for edge in 0..12 {
        assert!(is_flagged(1 << edge, edge));
        assert!(!is_flagged(!(1u16 << edge), edge));
        assert!(is_flagged(0xfff, edge));
        assert!(!is_flagged(0, edge));
    }
    assert!(is_flagged(0x109, 0) && is_flagged(0x109, 3) && is_flagged(0x109, 8));
    assert!(!is_flagged(0x109, 1) && !is_flagged(0x109, 11));
}

#[test]
fn edge_table_flags_the_crossed_edges() {
    assert_eq!(EDGE_TABLE[0], 0);
    assert_eq!(EDGE_TABLE[1], 0x109);
    assert_eq!(EDGE_TABLE[255], 0);
    for cube_index in 0..256usize {
        for edge in 0..12u8 {
            let (start, end) = edge_corners(edge);
            let crossed = ((cube_index >> start) & 1) != ((cube_index >> end) & 1);
            assert_eq!(is_flagged(EDGE_TABLE[cube_index], edge as usize), crossed);
        }
    }
}

#[test]
fn triangle_table_rows_use_exactly_the_flagged_edges() {
    assert_eq!(ROW_END, 0xf);
    assert_eq!(TRIANGLE_TABLE[0], 0xffff_ffff_ffff_ffff);
    assert_eq!(TRIANGLE_TABLE[1], 0xffff_ffff_ffff_f380);
    for cube_index in 0..256usize {
        let mut row = TRIANGLE_TABLE[cube_index];
        let mut used: u16 = 0;
        let mut entries = 0;
        while row % 16 != ROW_END {
            let edge = (row % 16) as usize;
            assert!(edge < 12);
            assert!(is_flagged(EDGE_TABLE[cube_index], edge));
            used |= 1 << edge;
            row /= 16;
            entries += 1;
        }
        assert_eq!(entries % 3, 0);
        assert!(entries <= 15);
        assert_eq!(used, EDGE_TABLE[cube_index]);
    }
}

#[test]
fn a_cell_with_one_corner_below_gives_one_triangle() {
    let mut corners = [false; 8];
    corners[0] = true;
    let mesh = mesh_of(single_cell(corners));
    assert_eq!(
        mesh.vertices,
        vec![
            EdgeVertex { x: 0, y: 0, z: 0, edge: 0 },
            EdgeVertex { x: 0, y: 0, z: 0, edge: 3 },
            EdgeVertex { x: 0, y: 0, z: 0, edge: 8 },
        ]
    );
    // The row of cube index 1 is the triangle on the edges 0, 8, 3.
    assert_eq!(mesh.indices, vec![0, 2, 1]);
}

#[test]
fn a_cell_cut_by_a_plane_gives_two_triangles() {
    // The four corners with z = 0 are below: cube index 0x0f.
    let mesh = mesh_of(single_cell([true, true, true, true, false, false, false, false]));
    let edges: Vec<u8> = mesh.vertices.iter().map(|v| v.edge).collect();
    assert_eq!(edges, vec![8, 9, 10, 11]);
    // The row is 9, 8, 10, 10, 8, 11.
    assert_eq!(mesh.indices, vec![1, 0, 2, 2, 0, 3]);
}

#[test]
fn cells_are_walked_with_x_outermost() {
    // Only the lattice point (1, 1, 1) of a 3 x 3 x 3 lattice is below.
    let mut below = vec![vec![vec![false; 3]; 3]; 3];
    below[1][1][1] = true;
    let mesh = mesh_of(below);
    let cells: Vec<(usize, usize, usize)> = mesh.vertices.iter().map(|v| (v.x, v.y, v.z)).collect();
    let mut walked = cells.clone();
    walked.dedup();
    assert_eq!(
        walked,
        vec![
            (0, 0, 0),
            (0, 0, 1),
            (0, 1, 0),
            (0, 1, 1),
            (1, 0, 0),
            (1, 0, 1),
            (1, 1, 0),
            (1, 1, 1)
        ]
    );
    // Every cell has the point as one corner: three vertices, one triangle.
    assert_eq!(mesh.vertices.len(), 24);
    assert_eq!(mesh.indices.len(), 24);
    for (triangle, indices) in mesh.indices.chunks(3).enumerate() {
        for index in indices {
            assert_eq!(*index as usize / 3, triangle);
        }
    }
}

#[test]
fn lattice_refuses_what_is_no_box() {
    assert!(Lattice::new(vec![]).is_none());
    assert!(Lattice::new(vec![vec![]]).is_none());
    assert!(Lattice::new(vec![vec![vec![]]]).is_none());
    assert!(Lattice::new(vec![vec![vec![true]], vec![vec![true, false]]]).is_none());
    assert!(Lattice::new(vec![vec![vec![true]], vec![vec![true], vec![false]]]).is_none());
    assert!(Lattice::new(vec![vec![vec![true]]]).is_some());
    assert!(Lattice::new(vec![vec![vec![true; 4]; 3]; 2]).is_some());
}

#[test]
fn a_lattice_on_one_side_of_the_surface_gives_no_mesh() {
    for below in [false, true] {
        let mesh = mesh_of(vec![vec![vec![below; 5]; 4]; 3]);
        assert!(mesh.vertices.is_empty());
        assert!(mesh.indices.is_empty());
    }
    // The field that is 1 everywhere, with iso-value 0.
    let one = |_: f64, _: f64, _: f64| 1.0;
    let (below, _) = sample(&one, [-4.0; 3], [4.0; 3], 0.5, 0.0);
    let mesh = mesh_of(below);
    assert!(mesh.vertices.is_empty());
    assert!(mesh.indices.is_empty());
}

#[test]
fn identical_inputs_give_identical_meshes() {
    let sphere = |x: f64, y: f64, z: f64| x * x + y * y + z * z - 9.0;
    let (below, _) = sample(&sphere, [-4.0; 3], [4.0; 3], 0.5, 0.0);
    let first = mesh_of(below.clone());
    let second = mesh_of(below);
    assert!(!first.vertices.is_empty());
    assert_eq!(first.vertices, second.vertices);
    assert_eq!(first.indices, second.indices);
    assert_eq!(first.name, second.name);
}

#[test]
fn sphere_of_radius_five() {
    let radius = 5.0;
    let step = 0.5;
    let sphere = |x: f64, y: f64, z: f64| x * x + y * y + z * z - radius * radius;
    let (below, points) = sample(&sphere, [-10.0; 3], [10.0; 3], step, 0.0);
    assert_eq!(points[0].len(), 40);
    let mesh = mesh_of(below.clone());
    assert!(0 < mesh.vertices.len() && mesh.vertices.len() < 50000);
    assert_eq!(mesh.indices.len() % 3, 0);
    assert!(mesh.indices.iter().all(|i| (*i as usize) < mesh.vertices.len()));

    // Every vertex stands on an edge that crosses the sphere, so it is
    // within one step of it.
    let world = |p: (usize, usize, usize)| [points[0][p.0], points[1][p.1], points[2][p.2]];
    let mut positions: Vec<[f64; 3]> = vec![];
    for v in &mesh.vertices {
        let (a, b) = endpoints(v);
        assert_ne!(below[a.0][a.1][a.2], below[b.0][b.1][b.2]);
        let (pa, pb) = (world(a), world(b));
        let (fa, fb) = (sphere(pa[0], pa[1], pa[2]), sphere(pb[0], pb[1], pb[2]));
        let t = (0.0 - fa) / (fb - fa);
        let p = [pa[0] + t * (pb[0] - pa[0]), pa[1] + t * (pb[1] - pa[1]), pa[2] + t * (pb[2] - pa[2])];
        let distance = (p[0] * p[0] + p[1] * p[1] + p[2] * p[2]).sqrt();
        assert!((distance - radius).abs() < step);
        positions.push(p);
    }

    // Every triangle is wound the same way: by the right-hand rule its
    // corners turn about an axis that points to the side below the
    // iso-value, here to the centre of the sphere. Where the sphere goes
    // through lattice points, triangles shrink to a line or a point.
    let mut wound = 0;
    for triangle in mesh.indices.chunks(3) {
        let a = positions[triangle[0] as usize];
        let b = positions[triangle[1] as usize];
        let c = positions[triangle[2] as usize];
        let e1 = [b[0] - a[0], b[1] - a[1], b[2] - a[2]];
        let e2 = [c[0] - a[0], c[1] - a[1], c[2] - a[2]];
        let normal = [
            e1[1] * e2[2] - e1[2] * e2[1],
            e1[2] * e2[0] - e1[0] * e2[2],
            e1[0] * e2[1] - e1[1] * e2[0],
        ];
        let centre = [
            (a[0] + b[0] + c[0]) / 3.0,
            (a[1] + b[1] + c[1]) / 3.0,
            (a[2] + b[2] + c[2]) / 3.0,
        ];
        let outward = normal[0] * centre[0] + normal[1] * centre[1] + normal[2] * centre[2];
        assert!(outward <= 0.0);
        if outward < 0.0 {
            wound += 1;
        }
    }

    assert!(wound > mesh.indices.len() / 3 * 9 / 10);

    // The surface is closed: when the vertices on one lattice edge are
    // taken as one, every side of a triangle belongs to two triangles.
    let mut sides: HashMap<_, usize> = HashMap::new();
    for triangle in mesh.indices.chunks(3) {
        let corners: Vec<_> = triangle
            .iter()
            .map(|i| {
                let (a, b) = endpoints(&mesh.vertices[*i as usize]);
                if a < b {
                    (a, b)
                } else {
                    (b, a)
                }
            })
            .collect();
        for k in 0..3 {
            let (p, q) = (corners[k], corners[(k + 1) % 3]);
            let side = if p < q { (p, q) } else { (q, p) };
            *sides.entry(side).or_insert(0) += 1;
        }
    }
    assert!(sides.values().all(|count| *count == 2));
}

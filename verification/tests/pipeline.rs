use std::collections::HashSet;
use terrain::chunk_cache::{ChunkState, Completed, Frame, MAX_IN_FLIGHT, N_STEPS};
use terrain::chunk_id::{ChunkId, OCTREE_VOXEL_DENSITY};
use terrain::lod::LevelOfDetail;
use terrain::marching_cubes::{corner_offset, edge_corners, marching_cubes, EdgeVertex, Lattice};
use terrain::math::vector::Vec3;
use terrain::mesh::{BarycentricVertex, Mesh, Vertex};
use terrain::physics::PhysicsRegistry;

const EPS: f64 = 1e-4;

fn ball(x: f64, y: f64, z: f64) -> f64 {
    (x * x + y * y + z * z).sqrt() - 10.0
}

fn nothing(_: f64, _: f64, _: f64) -> f64 {
    1.0
}

fn axis_points(min: f64, max: f64, step: f64) -> Vec<f64> {
    let mut points = vec![min];
    let mut x = min;
    while x + step < max {
        x += step;
        points.push(x);
    }
    points
}

fn normalized_gradient(field: fn(f64, f64, f64) -> f64, p: [f64; 3]) -> [f64; 3] {
    let g = [
        field(p[0] + EPS, p[1], p[2]) - field(p[0] - EPS, p[1], p[2]),
        field(p[0], p[1] + EPS, p[2]) - field(p[0], p[1] - EPS, p[2]),
        field(p[0], p[1], p[2] + EPS) - field(p[0], p[1], p[2] - EPS),
    ];
    let norm = (g[0] * g[0] + g[1] * g[1] + g[2] * g[2]).sqrt();
    if norm == 0.0 {
        [0.0; 3]
    } else {
        [g[0] / norm, g[1] / norm, g[2] / norm]
    }
}

/// What a worker does for one region: it samples the field, extracts the
/// surface, places the vertices and takes the mesh apart into corners.
fn mesh_region(field: fn(f64, f64, f64) -> f64, id: ChunkId) -> Mesh<BarycentricVertex<f64>> {
    let density = OCTREE_VOXEL_DENSITY as f64;
    let position = id.position().0.map(|c| c as f64 / density);
    let size = id.size() as f64 / density;
    let step = size / N_STEPS as f64;
    let axes: Vec<Vec<f64>> =
        position.iter().map(|min| axis_points(*min, min + size + step, step)).collect();
    let below: Vec<Vec<Vec<bool>>> = axes[0]
        .iter()
        .map(|x| {
            axes[1]
                .iter()
                .map(|y| axes[2].iter().map(|z| field(*x, *y, *z) < 0.0).collect())
                .collect()
        })
        .collect();
    let surface: Mesh<EdgeVertex> = marching_cubes(&Lattice::new(below).unwrap());
    let vertices: Vec<Vertex<f64>> = surface
        .vertices
        .iter()
        .map(|v| {
            let (start, end) = edge_corners(v.edge);
            let (a, b) = (corner_offset(start), corner_offset(end));
            let pa = [axes[0][v.x + a.0], axes[1][v.y + a.1], axes[2][v.z + a.2]];
            let pb = [axes[0][v.x + b.0], axes[1][v.y + b.1], axes[2][v.z + b.2]];
            let (fa, fb) = (field(pa[0], pa[1], pa[2]), field(pb[0], pb[1], pb[2]));
            let t = if (fa - fb).abs() < 1e-6 { 0.5 } else { (0.0 - fa) / (fb - fa) };
            let p = [
                pa[0] + t * (pb[0] - pa[0]),
                pa[1] + t * (pb[1] - pa[1]),
                pa[2] + t * (pb[2] - pa[2]),
            ];
            Vertex {
                position: Vec3::from_array(p),
                normal: Vec3::from_array(normalized_gradient(field, p)),
            }
        })
        .collect();
    Mesh { name: surface.name, vertices, indices: surface.indices }
        .with_barycentric_coordinates(0.0, 1.0)
}

fn work(field: fn(f64, f64, f64) -> f64, jobs: &[ChunkId]) -> Vec<Completed> {
    jobs.iter()
        .map(|id| Completed { chunk_id: *id, num_vertices: mesh_region(field, *id).vertices.len() })
        .collect()
}

/// Runs frames at one viewpoint, every job coming back in the next frame,
/// until a frame into which no job came back starts no job either and
/// draws what the frame before drew. The tree of a frame is built before
/// the jobs that came back are taken in, so what a job brings shows one
/// frame later.
fn settle(lod: &mut LevelOfDetail, field: fn(f64, f64, f64) -> f64, focus: [i32; 3]) -> Frame {
    let mut completed: Vec<Completed> = vec![];
    let mut drawn: Option<Vec<usize>> = None;
    for _ in 0..400 {
        assert!(lod.can_take(&completed));
        let frame = lod.update(Vec3::from_array(focus), &completed);
        assert!(frame.jobs.len() <= MAX_IN_FLIGHT);
        assert!(lod.chunk_renderer().num_pending() <= MAX_IN_FLIGHT);
        assert_eq!(frame.outcomes.len(), completed.len());
        if completed.is_empty() && frame.jobs.is_empty() && drawn.as_ref() == Some(&frame.draw) {
            return frame;
        }
        completed = work(field, &frame.jobs);
        drawn = Some(frame.draw);
    }
    panic!("the draw set did not settle");
}

#[test]
fn a_worker_meshes_a_region_that_holds_the_ball() {
    let mesh = mesh_region(ball, ChunkId(-256, -256, -256, 512));
    assert!(!mesh.vertices.is_empty());
    assert_eq!(mesh.vertices.len(), mesh.indices.len());
    let count = mesh.indices.len() as u32;
    assert_eq!(mesh.indices, (0..count).collect::<Vec<u32>>());
    for (i, vertex) in mesh.vertices.iter().enumerate() {
        let expected = [[0.0, 0.0, 1.0], [0.0, 1.0, 0.0], [1.0, 0.0, 0.0]][i % 3];
        assert_eq!(vertex.bary_coord.0, expected);
        let p = vertex.position.0;
        // A vertex is on the ball, as far as a straight line between two
        // samples four units apart can tell.
        assert!(ball(p[0], p[1], p[2]).abs() < 4.0);
        // Its normal points away from the centre.
        let n = vertex.normal.0;
        assert!(n[0] * p[0] + n[1] * p[1] + n[2] * p[2] > 0.0);
        assert!(((n[0] * n[0] + n[1] * n[1] + n[2] * n[2]).sqrt() - 1.0).abs() < 1e-6);
    }
    // A region far from the ball is empty.
    assert!(mesh_region(ball, ChunkId(1024, 1024, 1024, 512)).vertices.is_empty());
}

#[test]
fn a_static_viewer_sees_the_draw_set_settle() {
    let mut lod = LevelOfDetail::new(3, 512, 10);
    let frame = settle(&mut lod, ball, [0, 0, 0]);
    assert!(!frame.draw.is_empty());
    let unique: HashSet<usize> = frame.draw.iter().cloned().collect();
    assert_eq!(unique.len(), frame.draw.len());
    assert_eq!(lod.chunk_renderer().num_pending(), 0);
    // The same viewpoint gives the same frame again.
    let again = lod.update(Vec3::new(0, 0, 0), &vec![]);
    assert_eq!(again.draw, frame.draw);
    assert!(again.jobs.is_empty());
    // The root was the first region to be meshed; finer regions stand in
    // for it now.
    assert!(!frame.draw.contains(&10));
}

#[test]
fn a_viewer_that_jumps_away_sees_the_coarse_world() {
    let mut lod = LevelOfDetail::new(3, 512, 10);
    let near = settle(&mut lod, ball, [0, 0, 0]);
    assert!(near.draw.len() > 1);
    // Ten thousand units up, in steps of the grid.
    let far = lod.update(Vec3::new(0, 10000 * OCTREE_VOXEL_DENSITY as i32, 0), &vec![]);
    assert_eq!(far.draw, vec![10]);
    assert!(far.jobs.is_empty());
    for uid in &near.draw {
        assert!(!far.draw.contains(uid));
    }
    // Back at the origin the fine regions are still in the cache.
    let back = lod.update(Vec3::new(0, 0, 0), &vec![]);
    assert_eq!(back.draw, near.draw);
}

#[test]
fn an_empty_world_draws_nothing() {
    let mut lod = LevelOfDetail::new(3, 512, 10);
    let root = ChunkId(-256, -256, -256, 512);
    let first = lod.update(Vec3::new(0, 0, 0), &vec![]);
    assert_eq!(first.jobs, vec![root]);
    assert!(first.draw.is_empty());
    let completed = work(nothing, &first.jobs);
    assert_eq!(completed[0].num_vertices, 0);
    for frame_number in 0..5 {
        let completed = if frame_number == 0 { completed.clone() } else { vec![] };
        let frame = lod.update(Vec3::new(0, 0, 0), &completed);
        assert!(frame.draw.is_empty());
        assert!(frame.jobs.is_empty());
        assert_eq!(lod.chunk_renderer().num_pending(), 0);
        assert_eq!(lod.chunk_renderer().peek_chunk_state(&root), ChunkState::Empty);
    }
}

#[test]
fn frames_go_on_while_the_workers_are_busy() {
    let mut lod = LevelOfDetail::new(3, 512, 10);
    // Jobs come back until the root has been meshed and eight jobs are in
    // flight at once. From then on no job comes back.
    let mut completed: Vec<Completed> = vec![];
    let mut frames = 0;
    loop {
        let frame = lod.update(Vec3::new(0, 0, 0), &completed);
        frames += 1;
        assert!(frames < 20);
        if frame.jobs.len() == MAX_IN_FLIGHT && lod.chunk_renderer().next_uid() > 10 {
            break;
        }
        completed = work(ball, &frame.jobs);
    }
    assert_eq!(lod.chunk_renderer().num_pending(), MAX_IN_FLIGHT);
    let frame = lod.update(Vec3::new(0, 0, 0), &vec![]);
    assert!(frame.jobs.is_empty());
    let drawn = frame.draw;
    assert_eq!(drawn, vec![10]);
    for _ in 0..10 {
        let frame = lod.update(Vec3::new(0, 0, 0), &vec![]);
        assert!(frame.jobs.is_empty());
        assert_eq!(frame.draw, drawn);
        assert_eq!(lod.chunk_renderer().num_pending(), MAX_IN_FLIGHT);
    }
}

#[test]
fn evicted_chunks_leave_the_physics_world_in_the_same_frame() {
    let mut lod = LevelOfDetail::with_capacities(2, 512, 10, 4, 64);
    let mut registry = PhysicsRegistry::new();
    let mut completed: Vec<Completed> = vec![];
    let mut evictions = 0;
    let corners = [-200, 200];
    for frame_number in 0..120usize {
        let focus = [
            corners[frame_number % 2],
            corners[(frame_number / 2) % 2],
            corners[(frame_number / 4) % 2],
        ];
        assert!(lod.can_take(&completed));
        let frame = lod.update(Vec3::from_array(focus), &completed);
        let changes = registry.sync(&frame.draw);
        assert!(lod.chunk_renderer().num_pending() <= MAX_IN_FLIGHT);
        for uid in 0..1200 {
            assert_eq!(registry.is_registered(uid), frame.draw.contains(&uid));
        }
        for outcome in &frame.outcomes {
            if let Some(uid) = outcome.evicted {
                evictions += 1;
                assert!(!frame.draw.contains(&uid));
                assert!(!registry.is_registered(uid));
                assert!(!changes.added.contains(&uid));
            }
        }
        assert!(frame.draw.len() <= 4);
        completed = work(ball, &frame.jobs);
    }
    assert!(evictions > 0);
}

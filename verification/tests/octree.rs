use terrain::chunk_cache::{ChunkRenderer, Completed};
use terrain::chunk_id::ChunkId;
use terrain::math::vector::Vec3;
use terrain::octree::{can_halve, is_near, squared_distance_to_cube, Octree, OCTREE_OFFSETS};

const ROOT: ChunkId = ChunkId(-64, -64, -64, 128);

fn octree() -> Octree {
    Octree::new(Vec3::new(-64, -64, -64), 128)
}

fn origin() -> Vec3<i32> {
    Vec3::new(0, 0, 0)
}

fn octants(parent: ChunkId) -> Vec<ChunkId> {
    let half = parent.3 / 2;
    OCTREE_OFFSETS
        .iter()
        .map(|o| {
            ChunkId(
                parent.0 + half as i32 * o.0,
                parent.1 + half as i32 * o.1,
                parent.2 + half as i32 * o.2,
                half,
            )
        })
        .collect()
}

/// Lets the cache mesh the regions, with the given numbers of vertices.
fn load(renderer: &mut ChunkRenderer, regions: &[(ChunkId, usize)]) {
    for chunk in regions.chunks(8) {
        let ids: Vec<ChunkId> = chunk.iter().map(|r| r.0).collect();
        let frame = renderer.render(&vec![], &vec![], ids.clone());
        assert_eq!(frame.jobs, ids);
        let completed: Vec<Completed> =
            chunk.iter().map(|r| Completed { chunk_id: r.0, num_vertices: r.1 }).collect();
        renderer.render(&completed, &vec![], vec![]);
    }
}

#[test]
fn octants_come_in_a_fixed_order() {
    assert_eq!(
        OCTREE_OFFSETS,
        [
            (0, 0, 0),
            (0, 0, 1),
            (0, 1, 0),
            (1, 0, 0),
            (0, 1, 1),
            (1, 0, 1),
            (1, 1, 0),
            (1, 1, 1)
        ]
    );
    let (positions, child_size) = Octree::children_positions(&Vec3::new(-64, 0, 64), 128);
    assert_eq!(child_size, 64);
    let corners: Vec<[i32; 3]> = positions.iter().map(|p| p.0).collect();
    assert_eq!(
        corners,
        vec![
            [-64, 0, 64],
            [-64, 0, 128],
            [-64, 64, 64],
            [0, 0, 64],
            [-64, 64, 128],
            [0, 0, 128],
            [0, 64, 64],
            [0, 64, 128]
        ]
    );
    assert_eq!(Octree::new_children_indices(9), [9, 10, 11, 12, 13, 14, 15, 16]);
}

#[test]
fn distance_to_a_cube() {
    let corner = Vec3::new(10, 20, 30);
    // Inside and on the faces the distance is zero.
    assert_eq!(squared_distance_to_cube(&corner, 8, &Vec3::new(14, 24, 34)), 0);
    assert_eq!(squared_distance_to_cube(&corner, 8, &Vec3::new(10, 28, 30)), 0);
    // Beside one face, one edge, one corner.
    assert_eq!(squared_distance_to_cube(&corner, 8, &Vec3::new(7, 24, 34)), 9);
    assert_eq!(squared_distance_to_cube(&corner, 8, &Vec3::new(7, 32, 34)), 9 + 16);
    assert_eq!(squared_distance_to_cube(&corner, 8, &Vec3::new(7, 32, 18)), 9 + 16 + 144);
    // The farthest that coordinates allow.
    let far = squared_distance_to_cube(
        &Vec3::new(i32::MIN, i32::MIN, i32::MIN),
        0,
        &Vec3::new(i32::MAX, i32::MAX, i32::MAX),
    );
    assert_eq!(far, 3 * (u32::MAX as u128) * (u32::MAX as u128));
}

#[test]
fn near_means_no_farther_than_the_edge_is_long() {
    let corner = Vec3::new(0, 0, 0);
    assert!(is_near(&corner, 8, &Vec3::new(4, 4, 4)));
    assert!(is_near(&corner, 8, &Vec3::new(16, 4, 4)));
    assert!(!is_near(&corner, 8, &Vec3::new(17, 4, 4)));
    assert!(is_near(&corner, 8, &Vec3::new(-8, 4, 4)));
    assert!(!is_near(&corner, 8, &Vec3::new(-9, 4, 4)));
    // 6^2 + 5^2 = 61 <= 64 < 6^2 + 6^2
    assert!(is_near(&corner, 8, &Vec3::new(14, 13, 4)));
    assert!(!is_near(&corner, 8, &Vec3::new(14, 14, 4)));
}

#[test]
fn an_unknown_root_is_fetched_and_not_drawn() {
    let mut tree = octree();
    let mut cache = ChunkRenderer::new(0);
    let (draw, fetch) = tree.rebuild(5, origin(), &mut cache);
    assert!(draw.is_empty());
    assert_eq!(fetch, vec![ROOT]);
    assert_eq!(tree.nodes.len(), 1);
    assert!(tree.nodes[0].children.is_none());
    assert!(!tree.nodes[0].draw);
}

#[test]
fn a_root_with_unknown_octants_is_drawn_and_the_octants_are_fetched() {
    let mut tree = octree();
    let mut cache = ChunkRenderer::new(0);
    load(&mut cache, &[(ROOT, 9)]);
    let (draw, fetch) = tree.rebuild(5, origin(), &mut cache);
    assert_eq!(draw, vec![ROOT]);
    assert_eq!(fetch, octants(ROOT));
    assert_eq!(tree.nodes.len(), 9);
    assert_eq!(tree.nodes[0].children, Some([1, 2, 3, 4, 5, 6, 7, 8]));
    for (k, node) in tree.nodes[1..].iter().enumerate() {
        assert_eq!(node.chunk_id, octants(ROOT)[k]);
        assert_eq!(node.position.0, [node.chunk_id.0, node.chunk_id.1, node.chunk_id.2]);
        assert_eq!(node.size, 64);
        assert_eq!(node.level, 1);
        assert!(node.children.is_none());
        assert!(!node.draw);
    }
}

#[test]
fn the_tree_stops_at_the_deepest_level() {
    let mut tree = octree();
    let mut cache = ChunkRenderer::new(0);
    load(&mut cache, &[(ROOT, 9)]);
    let (draw, fetch) = tree.rebuild(0, origin(), &mut cache);
    assert_eq!(draw, vec![ROOT]);
    assert!(fetch.is_empty());
    assert_eq!(tree.nodes.len(), 1);
}

#[test]
fn a_far_root_is_not_cut() {
    let mut tree = octree();
    let mut cache = ChunkRenderer::new(0);
    load(&mut cache, &[(ROOT, 9)]);
    // The cube reaches to 64; its edge is 128 long.
    let (draw, fetch) = tree.rebuild(5, Vec3::new(64 + 129, 0, 0), &mut cache);
    assert_eq!(draw, vec![ROOT]);
    assert!(fetch.is_empty());
    assert_eq!(tree.nodes.len(), 1);
    let (draw, fetch) = tree.rebuild(5, Vec3::new(64 + 128, 0, 0), &mut cache);
    assert_eq!(draw, vec![ROOT]);
    assert_eq!(fetch.len(), 8);
}

#[test]
fn octants_stand_in_for_their_parent_when_all_are_meshed_or_empty() {
    let mut tree = octree();
    let mut cache = ChunkRenderer::new(0);
    let children = octants(ROOT);
    load(&mut cache, &[(ROOT, 9)]);
    // Seven octants are there, the last is missing: the root is drawn.
    let seven: Vec<(ChunkId, usize)> =
        children[..7].iter().enumerate().map(|(k, id)| (*id, k % 2)).collect();
    load(&mut cache, &seven);
    let (draw, fetch) = tree.rebuild(1, origin(), &mut cache);
    assert_eq!(draw, vec![ROOT]);
    assert_eq!(fetch, vec![children[7]]);
    // With the last octant in the cache the meshed octants are drawn in
    // place of the root, and the empty ones are not.
    load(&mut cache, &[(children[7], 3)]);
    let (draw, fetch) = tree.rebuild(1, origin(), &mut cache);
    assert_eq!(draw, vec![children[1], children[3], children[5], children[7]]);
    assert!(fetch.is_empty());
    assert!(!tree.nodes[0].draw);
}

#[test]
fn a_parent_that_is_not_drawn_hands_nothing_down() {
    let mut tree = octree();
    let mut cache = ChunkRenderer::new(0);
    let children = octants(ROOT);
    let mut regions = vec![(ROOT, 9)];
    regions.extend(children.iter().map(|id| (*id, 9)));
    // The octants of the first octant, all meshed.
    let grandchildren = octants(children[0]);
    regions.extend(grandchildren.iter().map(|id| (*id, 9)));
    // Seven octants of the second octant: it keeps being drawn itself.
    regions.extend(octants(children[1])[..7].iter().map(|id| (*id, 9)));
    load(&mut cache, &regions);
    let (draw, fetch) = tree.rebuild(2, origin(), &mut cache);
    let mut expected = vec![children[1]];
    expected.extend(children[2..].iter());
    expected.extend(grandchildren.iter());
    assert_eq!(draw, expected);
    // Breadth first: the octants of the root, then theirs in the order of
    // their parents.
    assert_eq!(tree.nodes.len(), 1 + 8 + 64);
    assert_eq!(tree.nodes[1].children, Some([9, 10, 11, 12, 13, 14, 15, 16]));
    assert_eq!(tree.nodes[8].children, Some([65, 66, 67, 68, 69, 70, 71, 72]));
    assert_eq!(fetch.len(), 64 - 8 - 7);
    assert_eq!(fetch[0], octants(children[1])[7]);
    for id in &draw {
        assert!(!fetch.contains(id));
    }
}

#[test]
fn the_tree_is_built_anew_for_every_frame() {
    let mut tree = octree();
    let mut cache = ChunkRenderer::new(0);
    load(&mut cache, &[(ROOT, 9)]);
    let first = tree.rebuild(3, origin(), &mut cache);
    let second = tree.rebuild(3, origin(), &mut cache);
    assert_eq!(first, second);
    assert_eq!(tree.nodes.len(), 9);
    assert!(tree.node_stack.is_empty());
}

#[test]
fn rebuilding_the_tree_makes_its_regions_the_ones_used_last() {
    let mut tree = octree();
    let mut cache = ChunkRenderer::with_capacities(0, 3, 16);
    let children = octants(ROOT);
    // Meshed in this order: the second octant, the first, the root.
    load(&mut cache, &[(children[1], 9)]);
    load(&mut cache, &[(children[0], 9)]);
    load(&mut cache, &[(ROOT, 9)]);
    // The tree asks for the root, then for the octants, and at last for
    // every node in order: the root is now the one used least recently.
    let (draw, _) = tree.rebuild(1, origin(), &mut cache);
    assert_eq!(draw, vec![ROOT]);
    let far = ChunkId(1024, 1024, 1024, 8);
    let frame = cache.render(&vec![], &vec![], vec![far]);
    assert_eq!(frame.jobs, vec![far]);
    let frame = cache.render(&vec![Completed { chunk_id: far, num_vertices: 3 }], &vec![], vec![]);
    // The root was the third mesh.
    assert_eq!(frame.outcomes[0].evicted, Some(2));
    assert_eq!(frame.outcomes[0].uid, Some(3));
    // Without the tree in between, the second octant would have gone.
    let mut cache = ChunkRenderer::with_capacities(0, 3, 16);
    load(&mut cache, &[(children[1], 9)]);
    load(&mut cache, &[(children[0], 9)]);
    load(&mut cache, &[(ROOT, 9)]);
    cache.render(&vec![], &vec![], vec![far]);
    let frame = cache.render(&vec![Completed { chunk_id: far, num_vertices: 3 }], &vec![], vec![]);
    assert_eq!(frame.outcomes[0].evicted, Some(0));
}

#[test]
fn an_edge_halves_as_often_as_it_has_factors_of_two() {
    assert!(can_halve(512, 0));
    assert!(can_halve(512, 9));
    assert!(!can_halve(512, 10));
    assert!(can_halve(6, 1));
    assert!(!can_halve(6, 2));
    assert!(can_halve(1, 0));
    assert!(!can_halve(1, 1));
    assert!(can_halve(u32::MAX, 0));
    assert!(can_halve(1 << 31, 31));
    assert!(!can_halve(1 << 31, 32));
    // An edge of no length is no edge, however often it is halved.
    assert!(!can_halve(0, 0));
    assert!(!can_halve(0, 5));
    assert!(!can_halve(0, 255));
}

#[test]
fn the_octants_of_every_node_are_different_regions() {
    let mut tree = octree();
    let mut cache = ChunkRenderer::new(0);
    let mut regions = vec![(ROOT, 9)];
    regions.extend(octants(ROOT).iter().map(|id| (*id, 9)));
    load(&mut cache, &regions);
    tree.rebuild(7, origin(), &mut cache);
    assert_eq!(tree.nodes.len(), 1 + 8 + 64);
    let mut ids: Vec<ChunkId> = tree.nodes.iter().map(|node| node.chunk_id).collect();
    ids.sort();
    ids.dedup();
    assert_eq!(ids.len(), 1 + 8 + 64);
    for node in &tree.nodes {
        assert_eq!(node.size, 128 >> node.level);
    }
}

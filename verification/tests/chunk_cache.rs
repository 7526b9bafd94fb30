use terrain::chunk_cache::{
    ChunkCache, ChunkRenderer, ChunkState, Completed, Outcome, MAX_IN_FLIGHT, N_STEPS,
};
use terrain::chunk_id::ChunkId;

fn id(n: i32) -> ChunkId {
    ChunkId(8 * n, 0, 0, 8)
}

fn done(n: i32, num_vertices: usize) -> Completed {
    Completed { chunk_id: id(n), num_vertices }
}

/// Submits the regions and takes their jobs back in, one region per frame.
fn load(renderer: &mut ChunkRenderer, regions: &[(i32, usize)]) -> Vec<Outcome> {
    let mut outcomes = vec![];
    for (n, num_vertices) in regions {
        let frame = renderer.render(&vec![], &vec![], vec![id(*n)]);
        assert_eq!(frame.jobs, vec![id(*n)]);
        let frame = renderer.render(&vec![done(*n, *num_vertices)], &vec![], vec![]);
        assert_eq!(frame.outcomes.len(), 1);
        outcomes.push(frame.outcomes[0]);
    }
    outcomes
}

#[test]
fn constants() {
    assert_eq!(MAX_IN_FLIGHT, 8);
    assert_eq!(N_STEPS, 16);
}

#[test]
fn a_new_cache_knows_nothing() {
    let mut renderer = ChunkRenderer::new(10);
    assert_eq!(renderer.next_uid(), 10);
    assert_eq!(renderer.num_pending(), 0);
    for n in -3..3 {
        assert_eq!(renderer.peek_chunk_state(&id(n)), ChunkState::Unknown);
        assert_eq!(renderer.get_chunk_state(&id(n)), ChunkState::Unknown);
        assert!(renderer.is_unknown(&id(n)));
        assert!(!renderer.is_empty(&id(n)));
        assert!(!renderer.is_available(&id(n)));
    }
}

#[test]
fn a_region_goes_from_unknown_to_pending_to_available() {
    let mut renderer = ChunkRenderer::new(10);
    let frame = renderer.render(&vec![], &vec![], vec![id(1)]);
    assert_eq!(frame.jobs, vec![id(1)]);
    assert!(frame.outcomes.is_empty());
    assert!(frame.draw.is_empty());
    assert_eq!(renderer.get_chunk_state(&id(1)), ChunkState::Pending);
    assert_eq!(renderer.num_pending(), 1);

    let frame = renderer.render(&vec![done(1, 300)], &vec![], vec![]);
    assert_eq!(frame.outcomes, vec![Outcome { uid: Some(10), evicted: None }]);
    assert_eq!(renderer.get_chunk_state(&id(1)), ChunkState::Available);
    assert!(renderer.is_available(&id(1)));
    assert_eq!(renderer.num_pending(), 0);
    assert_eq!(renderer.next_uid(), 11);

    let frame = renderer.render(&vec![], &vec![id(1)], vec![]);
    assert_eq!(frame.draw, vec![10]);
}

#[test]
fn a_mesh_without_vertices_marks_its_region_empty() {
    let mut renderer = ChunkRenderer::new(10);
    let outcomes = load(&mut renderer, &[(1, 0)]);
    assert_eq!(outcomes, vec![Outcome { uid: None, evicted: None }]);
    assert_eq!(renderer.get_chunk_state(&id(1)), ChunkState::Empty);
    assert!(renderer.is_empty(&id(1)));
    assert_eq!(renderer.next_uid(), 10);
    assert_eq!(renderer.num_pending(), 0);
}

#[test]
fn exactly_one_state_holds_of_every_region() {
    let mut renderer = ChunkRenderer::new(0);
    load(&mut renderer, &[(1, 5), (2, 0)]);
    renderer.render(&vec![], &vec![], vec![id(3)]);
    let expected = [
        (1, ChunkState::Available),
        (2, ChunkState::Empty),
        (3, ChunkState::Pending),
        (4, ChunkState::Unknown),
    ];
    for (n, state) in expected {
        assert_eq!(renderer.peek_chunk_state(&id(n)), state);
        assert_eq!(renderer.get_chunk_state(&id(n)), state);
        let flags = [
            renderer.is_unknown(&id(n)),
            state == ChunkState::Pending,
            renderer.is_empty(&id(n)),
            renderer.is_available(&id(n)),
        ];
        assert_eq!(flags.iter().filter(|flag| **flag).count(), 1);
    }
}

#[test]
fn uids_count_up_from_the_start() {
    let mut renderer = ChunkRenderer::new(100);
    let outcomes = load(&mut renderer, &[(1, 3), (2, 0), (3, 3), (4, 9)]);
    let uids: Vec<Option<usize>> = outcomes.iter().map(|outcome| outcome.uid).collect();
    assert_eq!(uids, vec![Some(100), None, Some(101), Some(102)]);
    assert_eq!(renderer.next_uid(), 103);
}

#[test]
fn no_more_than_eight_jobs_are_in_flight() {
    let mut renderer = ChunkRenderer::new(0);
    let fetch: Vec<ChunkId> = (0..20).map(id).collect();
    let frame = renderer.render(&vec![], &vec![], fetch.clone());
    assert_eq!(frame.jobs, fetch[..8].to_vec());
    assert_eq!(renderer.num_pending(), 8);
    for (n, region) in fetch.iter().enumerate() {
        let state = if n < 8 { ChunkState::Pending } else { ChunkState::Unknown };
        assert_eq!(renderer.peek_chunk_state(region), state);
    }
    // While the cache is saturated, proposals are dropped.
    let frame = renderer.render(&vec![], &vec![], fetch[8..].to_vec());
    assert!(frame.jobs.is_empty());
    assert_eq!(renderer.num_pending(), 8);
    // Two jobs come back: two more are started.
    let frame = renderer.render(&vec![done(0, 1), done(5, 0)], &vec![], fetch[8..].to_vec());
    assert_eq!(frame.jobs, vec![id(8), id(9)]);
    assert_eq!(renderer.num_pending(), 8);
}

#[test]
fn a_region_proposed_twice_gets_one_job() {
    let mut renderer = ChunkRenderer::new(0);
    let frame = renderer.render(&vec![], &vec![], vec![id(1), id(2), id(1), id(2), id(3)]);
    assert_eq!(frame.jobs, vec![id(1), id(2), id(3)]);
    assert_eq!(renderer.num_pending(), 3);
}

#[test]
fn the_least_recently_used_mesh_is_evicted() {
    let mut renderer = ChunkRenderer::with_capacities(10, 2, 4);
    let outcomes = load(&mut renderer, &[(1, 3), (2, 3)]);
    assert_eq!(
        outcomes,
        vec![Outcome { uid: Some(10), evicted: None }, Outcome { uid: Some(11), evicted: None }]
    );
    // The cache is full. The third mesh pushes out the first, which was
    // used least recently.
    let outcomes = load(&mut renderer, &[(3, 3)]);
    assert_eq!(outcomes, vec![Outcome { uid: Some(12), evicted: Some(10) }]);
    assert_eq!(renderer.peek_chunk_state(&id(1)), ChunkState::Unknown);
    assert_eq!(renderer.peek_chunk_state(&id(2)), ChunkState::Available);
    assert_eq!(renderer.peek_chunk_state(&id(3)), ChunkState::Available);
}

#[test]
fn asking_for_a_mesh_makes_it_the_most_recently_used() {
    let mut renderer = ChunkRenderer::with_capacities(10, 2, 4);
    load(&mut renderer, &[(1, 3), (2, 3)]);
    assert_eq!(renderer.get_chunk_state(&id(1)), ChunkState::Available);
    // Now the second mesh is the least recently used.
    let outcomes = load(&mut renderer, &[(3, 3)]);
    assert_eq!(outcomes, vec![Outcome { uid: Some(12), evicted: Some(11) }]);
    assert_eq!(renderer.peek_chunk_state(&id(1)), ChunkState::Available);
    assert_eq!(renderer.peek_chunk_state(&id(2)), ChunkState::Unknown);
}

#[test]
fn peeking_and_drawing_leave_the_order_of_use() {
    let mut renderer = ChunkRenderer::with_capacities(10, 2, 4);
    load(&mut renderer, &[(1, 3), (2, 3)]);
    assert_eq!(renderer.peek_chunk_state(&id(1)), ChunkState::Available);
    let frame = renderer.render(&vec![], &vec![id(1), id(2)], vec![]);
    assert_eq!(frame.draw, vec![10, 11]);
    let outcomes = load(&mut renderer, &[(3, 3)]);
    assert_eq!(outcomes, vec![Outcome { uid: Some(12), evicted: Some(10) }]);
}

#[test]
fn an_evicted_region_can_be_fetched_again() {
    let mut renderer = ChunkRenderer::with_capacities(0, 1, 1);
    load(&mut renderer, &[(1, 3), (2, 3)]);
    assert_eq!(renderer.peek_chunk_state(&id(1)), ChunkState::Unknown);
    let outcomes = load(&mut renderer, &[(1, 3)]);
    assert_eq!(outcomes, vec![Outcome { uid: Some(2), evicted: Some(1) }]);
    assert_eq!(renderer.peek_chunk_state(&id(1)), ChunkState::Available);
    assert_eq!(renderer.peek_chunk_state(&id(2)), ChunkState::Unknown);
}

#[test]
fn empty_regions_are_forgotten_least_recently_used_first() {
    let mut renderer = ChunkRenderer::with_capacities(0, 4, 2);
    load(&mut renderer, &[(1, 0), (2, 0), (3, 0)]);
    assert_eq!(renderer.peek_chunk_state(&id(1)), ChunkState::Unknown);
    assert_eq!(renderer.peek_chunk_state(&id(2)), ChunkState::Empty);
    assert_eq!(renderer.peek_chunk_state(&id(3)), ChunkState::Empty);
}

#[test]
fn a_region_that_lost_its_mesh_in_the_frame_is_not_drawn() {
    let mut renderer = ChunkRenderer::with_capacities(10, 1, 1);
    load(&mut renderer, &[(1, 3)]);
    renderer.render(&vec![], &vec![], vec![id(2)]);
    // Region 1 is available on entry; the job for region 2 comes back in
    // the same frame and pushes its mesh out.
    let frame = renderer.render(&vec![done(2, 3)], &vec![id(1)], vec![]);
    assert_eq!(frame.outcomes, vec![Outcome { uid: Some(11), evicted: Some(10) }]);
    assert!(frame.draw.is_empty());
}

#[test]
fn the_drain_comes_before_the_submit() {
    let mut renderer = ChunkRenderer::new(0);
    let fetch: Vec<ChunkId> = (0..8).map(id).collect();
    renderer.render(&vec![], &vec![], fetch);
    // All eight slots are taken; one job comes back in the frame that
    // proposes a ninth region, which therefore gets the slot.
    let frame = renderer.render(&vec![done(3, 1)], &vec![], vec![id(8), id(9)]);
    assert_eq!(frame.jobs, vec![id(8)]);
}

#[test]
fn can_take_tells_jobs_in_flight_from_others() {
    let mut renderer = ChunkRenderer::new(0);
    renderer.render(&vec![], &vec![], vec![id(1), id(2)]);
    assert!(renderer.can_take(&vec![]));
    assert!(renderer.can_take(&vec![done(1, 3)]));
    assert!(renderer.can_take(&vec![done(2, 0), done(1, 3)]));
    assert!(!renderer.can_take(&vec![done(3, 3)]));
    assert!(!renderer.can_take(&vec![done(1, 3), done(1, 3)]));
    let last = ChunkRenderer::new(usize::MAX);
    assert!(last.can_take(&vec![]));
    let mut last = ChunkRenderer::new(usize::MAX);
    last.render(&vec![], &vec![], vec![id(1)]);
    assert!(!last.can_take(&vec![done(1, 3)]));
    // A mesh without vertices needs no uid.
    assert!(last.can_take(&vec![done(1, 0)]));
}

#[test]
fn a_frame_of_empty_meshes_uses_no_uid_and_leaves_nothing_pending() {
    let mut renderer = ChunkRenderer::new(usize::MAX);
    let fetch: Vec<ChunkId> = (0..8).map(id).collect();
    renderer.render(&vec![], &vec![], fetch.clone());
    assert_eq!(renderer.num_pending(), 8);
    let completed: Vec<Completed> = (0..8).map(|n| done(n, 0)).collect();
    assert!(renderer.can_take(&completed));
    let frame = renderer.render(&completed, &vec![], vec![]);
    assert_eq!(frame.outcomes, vec![Outcome { uid: None, evicted: None }; 8]);
    assert!(frame.draw.is_empty());
    assert!(frame.jobs.is_empty());
    assert_eq!(renderer.num_pending(), 0);
    assert_eq!(renderer.next_uid(), usize::MAX);
    assert!(renderer.all_in_state(&fetch, ChunkState::Empty));
}

#[test]
fn all_in_state_looks_at_every_region() {
    let mut renderer = ChunkRenderer::new(0);
    load(&mut renderer, &[(1, 3), (2, 3), (3, 0)]);
    assert!(renderer.all_in_state(&vec![], ChunkState::Pending));
    assert!(renderer.all_in_state(&vec![id(1), id(2)], ChunkState::Available));
    assert!(!renderer.all_in_state(&vec![id(1), id(3)], ChunkState::Available));
    assert!(renderer.all_in_state(&vec![id(3)], ChunkState::Empty));
    assert!(renderer.all_in_state(&vec![id(7), id(8)], ChunkState::Unknown));
}

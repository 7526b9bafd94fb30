//! The level-of-detail controller: an octree over a chunk cache.
use vstd::prelude::*;
use crate::chunk_cache::{CacheModel, ChunkRenderer, Completed, Frame, meshes, MAX_IN_FLIGHT};
use crate::chunk_id::ChunkId;
use crate::math::vector::Vec3;
use crate::physics::{
    firsts, lemma_firsts, lemma_not_drawn_not_registered, lemma_without, without,
};
use crate::octree::{
    drawn_ids, halves, lemma_halves_is_positive, unknown_ids, walk_of, Octree, OctreeNode, Walk,
};

verus! {

/// An octree and the cache of the chunks that it asks for.
pub struct LevelOfDetail {
    chunk_renderer: ChunkRenderer,
    octree: Octree,
    max_level: u8,
}

/// What a traversal goes by when the regions are in the states that the
/// given cache contents put them in.
pub open spec fn walk_over(cache: CacheModel, max_level: u8, focus: Seq<i32>) -> Walk {
    Walk { state: |id: ChunkId| cache.state_of(id), max_level: max_level as int, focus }
}

impl LevelOfDetail {
    /// The invariants of the tree and of the cache.
    pub closed spec fn wf(&self) -> bool {
        &&& self.chunk_renderer.wf()
        &&& self.octree.wf()
        &&& halves(self.octree.root.chunk_id.3 as int, self.max_level as int)
    }

    /// The contents of the cache.
    pub closed spec fn cache(&self) -> CacheModel {
        self.chunk_renderer@
    }

    /// The nodes of the tree as the last frame left them.
    pub closed spec fn nodes(&self) -> Seq<OctreeNode> {
        self.octree.nodes@
    }

    /// The region of the root of the tree.
    pub closed spec fn root(&self) -> ChunkId {
        self.octree.root.chunk_id
    }

    /// The deepest level of the tree.
    pub closed spec fn deepest(&self) -> u8 {
        self.max_level
    }

    /// A controller over the cube of edge `size` centred on the origin,
    /// with an empty cache whose first mesh gets the uid `uid_start`. The
    /// edge must halve without loss down to the deepest level, so that
    /// every region of the tree is on the grid.
    pub fn new(max_level: u8, size: u32, uid_start: usize) -> (lod: Self)
        requires
            size - size / 2 <= i32::MAX,
            halves(size as int, max_level as int),
        ensures
            lod.wf(),
            lod.deepest() == max_level,
            lod.root() == ChunkId(
                (-(size / 2)) as i32,
                (-(size / 2)) as i32,
                (-(size / 2)) as i32,
                size,
            ),
            lod.cache() == (CacheModel {
                loaded: Seq::empty(),
                loaded_capacity: 2048,
                empty: Seq::empty(),
                empty_capacity: 65536,
                pending: Set::empty(),
                next_uid: uid_start,
            }),
    {
        Self::with_capacities(max_level, size, uid_start, 2048, 65536)
    }

    /// A controller whose cache keeps `loaded_capacity` meshes and
    /// remembers `empty_capacity` empty regions.
    pub fn with_capacities(
        max_level: u8,
        size: u32,
        uid_start: usize,
        loaded_capacity: usize,
        empty_capacity: usize,
    ) -> (lod: Self)
        requires
            size - size / 2 <= i32::MAX,
            halves(size as int, max_level as int),
            1 <= loaded_capacity,
            1 <= empty_capacity,
            loaded_capacity * 16 <= isize::MAX,
            empty_capacity * 16 <= isize::MAX,
        ensures
            lod.wf(),
            lod.deepest() == max_level,
            lod.root() == ChunkId(
                (-(size / 2)) as i32,
                (-(size / 2)) as i32,
                (-(size / 2)) as i32,
                size,
            ),
            lod.cache() == (CacheModel {
                loaded: Seq::empty(),
                loaded_capacity: loaded_capacity as nat,
                empty: Seq::empty(),
                empty_capacity: empty_capacity as nat,
                pending: Set::empty(),
                next_uid: uid_start,
            }),
    {
        proof {
            lemma_halves_is_positive(size as int, max_level as int);
        }
        let corner: i32 = -((size / 2) as i32);
        let position = Vec3::new(corner, corner, corner);
        LevelOfDetail {
            chunk_renderer: ChunkRenderer::with_capacities(
                uid_start,
                loaded_capacity,
                empty_capacity,
            ),
            octree: Octree::new(position, size),
            max_level,
        }
    }

    /// The chunk cache.
    pub fn chunk_renderer(&self) -> (renderer: &ChunkRenderer)
        ensures
            renderer@ == self.cache(),
            self.wf() ==> renderer.wf(),
    {
        &self.chunk_renderer
    }

    /// Whether `update` can take these jobs in: each is in flight, none
    /// comes twice, and there are uids left for the meshes that have
    /// vertices.
    pub fn can_take(&self, completed: &Vec<Completed>) -> (yes: bool)
        ensures
            yes == (self.cache().expects(completed@) && self.cache().next_uid + meshes(
                completed@,
            ) <= usize::MAX),
    {
        self.chunk_renderer.can_take(completed)
    }

    /// One frame: the tree is rebuilt for the viewpoint `focus`, then the
    /// cache takes in the jobs that came back, starts jobs for regions of
    /// the tree that are unknown, and lists the meshes of the regions that
    /// are drawn.
    ///
    /// Rebuilding the tree asks the cache for regions, which makes the
    /// meshes of those regions the ones used last.
    pub fn update(&mut self, focus: Vec3<i32>, completed: &Vec<Completed>) -> (frame: Frame)
        requires
            old(self).wf(),
            old(self).cache().expects(completed@),
            old(self).cache().next_uid + meshes(completed@) <= usize::MAX,
        ensures
            final(self).wf(),
            final(self).root() == old(self).root(),
            final(self).deepest() == old(self).deepest(),
            walk_over(old(self).cache(), old(self).deepest(), focus.0@).traversal(
                final(self).nodes(),
                old(self).root(),
            ),
            frame_follows(
                old(self).cache(),
                walk_over(old(self).cache(), old(self).deepest(), focus.0@),
                final(self).cache(),
                final(self).nodes(),
                completed@,
                frame,
            ),
            final(self).cache().wf(),
            final(self).cache().pending.len() <= MAX_IN_FLIGHT,
    {
        let ghost walk = walk_of(&self.chunk_renderer, self.max_level, focus.0@);
        proof {
            assert(walk.state =~= walk_over(self.chunk_renderer@, self.max_level, focus.0@).state);
            self.chunk_renderer.lemma_wf();
        }
        let ghost before = self.chunk_renderer;
        let (draw_chunk_ids, fetch_chunk_ids) = self.octree.rebuild(
            self.max_level,
            focus,
            &mut self.chunk_renderer,
        );
        proof {
            before@.lemma_asked(walk.asked(self.octree.nodes@));
            self.chunk_renderer.lemma_wf();
        }
        let frame = self.chunk_renderer.render(completed, &draw_chunk_ids, fetch_chunk_ids);
        proof {
            self.chunk_renderer.lemma_wf();
        }
        frame
    }
}

/// How a frame follows from the cache `before` it and the tree built for it.
///
/// The cache is asked for regions while the tree is built, takes in the
/// jobs that came back, and is proposed the unknown regions of the tree; the
/// frame lists what became of the jobs, the jobs that are started, and the
/// meshes of the regions that the tree draws.
pub open spec fn frame_follows(
    before: CacheModel,
    walk: Walk,
    after: CacheModel,
    nodes: Seq<OctreeNode>,
    completed: Seq<Completed>,
    frame: Frame,
) -> bool {
    let built = before.asked(walk.asked(nodes));
    let fetch = unknown_ids(nodes, walk.state);
    &&& after == built.drained(completed).proposed(fetch)
    &&& frame.outcomes@ == built.outcomes(completed)
    &&& frame.jobs@ == built.drained(completed).jobs(fetch)
    &&& frame.draw@ == after.drawn(drawn_ids(nodes))
}

/// The physics world after a frame, when the registry is brought in line
/// with the meshes that the frame lists for drawing.
///
/// Every chunk that is registered afterwards has its mesh in the cache. A
/// chunk whose mesh is not in the cache after the frame, be it evicted in
/// this frame or before, is not registered afterwards, and if it was
/// registered before, it is listed for removal, once.
pub proof fn lemma_registry_follows_the_cache(
    after: CacheModel,
    ids: Seq<ChunkId>,
    registered: Seq<usize>,
)
    requires
        registered.no_duplicates(),
    ensures
        forall|uid: usize| #[trigger]
            firsts(after.drawn(ids)).contains(uid) ==> after.has_mesh(uid),
        forall|uid: usize|
            !after.has_mesh(uid) ==> !firsts(after.drawn(ids)).contains(uid) && #[trigger] without(
                registered,
                after.drawn(ids).to_set(),
            ).contains(uid) == registered.contains(uid),
        without(registered, after.drawn(ids).to_set()).no_duplicates(),
{
    let drawn = after.drawn(ids);
    after.lemma_drawn_are_cached(ids);
    lemma_firsts(drawn);
    assert forall|uid: usize| drawn.contains(uid) implies after.has_mesh(uid) by {
        let k = drawn.index_of(uid);
        assert(after.has_mesh(drawn[k]));
    }
    assert forall|uid: usize| #[trigger]
        firsts(drawn).contains(uid) implies after.has_mesh(uid) by {
        assert(firsts(drawn).to_set().contains(uid));
        assert(drawn.to_set().contains(uid));
    }
    assert forall|uid: usize| !after.has_mesh(uid) implies !firsts(drawn).contains(uid)
        && #[trigger] without(registered, drawn.to_set()).contains(uid) == registered.contains(
        uid,
    ) by {
        lemma_not_drawn_not_registered(registered, drawn, uid);
    }
    lemma_without(registered, drawn.to_set());
}

} // verus!

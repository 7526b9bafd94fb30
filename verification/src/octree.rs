//! The octree that decides, for a viewpoint, which regions are drawn and
//! which are fetched.
//!
//! The tree is rebuilt for every frame into a flat array, breadth first. A
//! region whose mesh is in the cache is cut into its eight octants when the
//! viewpoint is no farther from it than the length of its edge and the
//! deepest level is not reached. A region is drawn when its mesh is in the
//! cache and its octants do not stand in for it: they do when every one of
//! them is either meshed or known to be empty.
use vstd::prelude::*;
use std::collections::VecDeque;
use crate::chunk_cache::{ChunkCache, ChunkState};
use crate::chunk_id::ChunkId;
use crate::math::vector::Vec3;

verus! {

/// Whether octant `k` lies in the upper half of its parent along x.
pub open spec fn octant_dx(k: int) -> int {
    if k == 3 || k == 5 || k == 6 || k == 7 {
        1
    } else {
        0
    }
}

/// The same along y.
pub open spec fn octant_dy(k: int) -> int {
    if k == 2 || k == 4 || k == 6 || k == 7 {
        1
    } else {
        0
    }
}

/// The same along z.
pub open spec fn octant_dz(k: int) -> int {
    if k == 1 || k == 4 || k == 5 || k == 7 {
        1
    } else {
        0
    }
}

/// The offsets of the eight octants from the minimum corner of their
/// parent, in units of their own edge.
pub const OCTREE_OFFSETS: [(i32, i32, i32); 8] = [
    (0, 0, 0),
    (0, 0, 1),
    (0, 1, 0),
    (1, 0, 0),
    (0, 1, 1),
    (1, 0, 1),
    (1, 1, 0),
    (1, 1, 1),
];

/// The region reaches no farther than `i32` coordinates go.
pub open spec fn region_fits(id: ChunkId) -> bool {
    &&& id.0 + id.3 <= i32::MAX
    &&& id.1 + id.3 <= i32::MAX
    &&& id.2 + id.3 <= i32::MAX
}

/// Octant `k` of a region: half its edge, at the offset of that octant.
pub open spec fn child_id(parent: ChunkId, k: int) -> ChunkId {
    let half = parent.3 / 2;
    ChunkId(
        (parent.0 + half * octant_dx(k)) as i32,
        (parent.1 + half * octant_dy(k)) as i32,
        (parent.2 + half * octant_dz(k)) as i32,
        half,
    )
}

/// Whether an edge can be halved `levels` times without loss and without
/// reaching zero: it is positive and a multiple of `2^levels`. The edges of
/// a tree `levels` deep are then all on the grid, each half its parent's.
pub open spec fn halves(size: int, levels: int) -> bool
    decreases levels,
{
    if levels <= 0 {
        size > 0
    } else {
        size % 2 == 0 && halves(size / 2, levels - 1)
    }
}

/// An edge that can be halved is positive.
pub proof fn lemma_halves_is_positive(size: int, levels: int)
    requires
        halves(size, levels),
    ensures
        size > 0,
    decreases levels,
{
    if levels > 0 {
        lemma_halves_is_positive(size / 2, levels - 1);
    }
}

/// Whether an edge can be halved `levels` times without loss and without
/// reaching zero.
pub fn can_halve(size: u32, levels: u8) -> (yes: bool)
    ensures
        yes == halves(size as int, levels as int),
{
    let mut rest = size;
    let mut left = levels;
    while left > 0
        invariant
            halves(size as int, levels as int) == halves(rest as int, left as int),
        decreases left,
    {
        if rest % 2 != 0 {
            return false;
        }
        rest = rest / 2;
        left -= 1;
    }
    rest > 0
}

/// The octants of a region whose edge is at least two steps long are eight
/// different regions.
pub proof fn lemma_octants_differ(parent: ChunkId, j: int, k: int)
    requires
        region_fits(parent),
        parent.3 >= 2,
        0 <= j < k < 8,
    ensures
        child_id(parent, j) != child_id(parent, k),
{
}

/// How far `query` lies outside the interval from `min` to `min + size`.
pub open spec fn gap(min: int, size: int, query: int) -> int {
    if query < min {
        min - query
    } else if query > min + size {
        query - min - size
    } else {
        0
    }
}

/// The square of the distance from a point to the nearest point of a
/// region.
pub open spec fn squared_distance(id: ChunkId, focus: Seq<i32>) -> int {
    gap(id.0 as int, id.3 as int, focus[0] as int) * gap(id.0 as int, id.3 as int, focus[0] as int)
        + gap(id.1 as int, id.3 as int, focus[1] as int) * gap(
        id.1 as int,
        id.3 as int,
        focus[1] as int,
    ) + gap(id.2 as int, id.3 as int, focus[2] as int) * gap(
        id.2 as int,
        id.3 as int,
        focus[2] as int,
    )
}

/// Whether a point is no farther from a region than the length of its edge.
pub open spec fn near(id: ChunkId, focus: Seq<i32>) -> bool {
    squared_distance(id, focus) <= id.3 * id.3
}

fn axis_gap(min: i32, size: u32, query: i32) -> (d: u64)
    ensures
        d == gap(min as int, size as int, query as int),
        d <= 0x1_ffff_ffff,
{
    let min = min as i64;
    let query = query as i64;
    let size = size as i64;
    if query < min {
        (min - query) as u64
    } else if query > min + size {
        (query - min - size) as u64
    } else {
        0
    }
}

/// The square of the distance from `query` to the cube at `cube_position`
/// with edge `size`.
pub fn squared_distance_to_cube(cube_position: &Vec3<i32>, size: u32, query: &Vec3<i32>) -> (d: u128)
    ensures
        d == squared_distance(ChunkId::new_spec(cube_position.0@, size), query.0@),
{
    let dx = axis_gap(cube_position.0[0], size, query.0[0]) as u128;
    let dy = axis_gap(cube_position.0[1], size, query.0[1]) as u128;
    let dz = axis_gap(cube_position.0[2], size, query.0[2]) as u128;
    assert(dx * dx <= 0x1_ffff_ffff * 0x1_ffff_ffff) by (nonlinear_arith)
        requires
            dx <= 0x1_ffff_ffff,
    ;
    assert(dy * dy <= 0x1_ffff_ffff * 0x1_ffff_ffff) by (nonlinear_arith)
        requires
            dy <= 0x1_ffff_ffff,
    ;
    assert(dz * dz <= 0x1_ffff_ffff * 0x1_ffff_ffff) by (nonlinear_arith)
        requires
            dz <= 0x1_ffff_ffff,
    ;
    dx * dx + dy * dy + dz * dz
}

/// Whether `query` is no farther from the cube than the length of its
/// edge.
pub fn is_near(cube_position: &Vec3<i32>, size: u32, query: &Vec3<i32>) -> (yes: bool)
    ensures
        yes == near(ChunkId::new_spec(cube_position.0@, size), query.0@),
{
    let edge = size as u128;
    assert(edge * edge <= 0xffff_ffff * 0xffff_ffff) by (nonlinear_arith)
        requires
            edge <= 0xffff_ffff,
    ;
    squared_distance_to_cube(cube_position, size, query) <= edge * edge
}

/// One region of the tree.
#[derive(Clone, Copy)]
pub struct OctreeNode {
    pub position: Vec3<i32>,
    pub size: u32,
    pub level: u8,
    pub chunk_id: ChunkId,
    pub children: Option<[usize; 8]>,
    pub draw: bool,
    /// The place of the node's parent in the array of nodes.
    pub parent: Ghost<int>,
}

/// What places a node in the tree: its region, its depth and its parent.
pub ghost struct NodeShape {
    pub chunk_id: ChunkId,
    pub level: int,
    pub parent: int,
}

impl OctreeNode {
    pub open spec fn shape(self) -> NodeShape {
        NodeShape { chunk_id: self.chunk_id, level: self.level as int, parent: self.parent@ }
    }

    /// The node's corner and edge are those of its region, and the region
    /// fits the coordinates.
    pub open spec fn wf(self) -> bool {
        &&& self.position.0@ == self.chunk_id.position_spec()
        &&& self.size == self.chunk_id.3
        &&& region_fits(self.chunk_id)
    }

    fn new(position: Vec3<i32>, size: u32, level: u8, draw: bool, Ghost(parent): Ghost<int>) -> (node:
        Self)
        ensures
            node.position == position,
            node.size == size,
            node.level == level,
            node.chunk_id == ChunkId::new_spec(position.0@, size),
            node.children is None,
            node.draw == draw,
            node.parent@ == parent,
    {
        OctreeNode {
            position,
            size,
            level,
            chunk_id: ChunkId::new(&position, size),
            children: None,
            draw,
            parent: Ghost(parent),
        }
    }
}

/// What a traversal goes by: the state of every region, the deepest level,
/// and the viewpoint.
pub ghost struct Walk {
    pub state: spec_fn(ChunkId) -> ChunkState,
    pub max_level: int,
    pub focus: Seq<i32>,
}

/// The shapes of the nodes, in order.
pub open spec fn shapes(nodes: Seq<OctreeNode>) -> Seq<NodeShape> {
    nodes.map_values(|node: OctreeNode| node.shape())
}

impl Walk {
    /// Whether a node is cut into its octants: its mesh is in the cache, it
    /// is above the deepest level, and the viewpoint is near it.
    pub open spec fn expands(self, node: NodeShape) -> bool {
        &&& (self.state)(node.chunk_id) == ChunkState::Available
        &&& node.level < self.max_level
        &&& near(node.chunk_id, self.focus)
    }

    /// Whether every octant of a node is meshed or known to be empty.
    pub open spec fn children_ready(self, node: NodeShape) -> bool {
        forall|k: int|
            0 <= k < 8 ==> (self.state)(#[trigger] child_id(node.chunk_id, k))
                == ChunkState::Available || (self.state)(child_id(node.chunk_id, k))
                == ChunkState::Empty
    }

    /// The number of nodes before place `i` that are cut into octants.
    pub open spec fn expanded_before(self, nodes: Seq<NodeShape>, i: int) -> int
        decreases i,
    {
        if i <= 0 {
            0
        } else if self.expands(nodes[i - 1]) {
            self.expanded_before(nodes, i - 1) + 1
        } else {
            self.expanded_before(nodes, i - 1)
        }
    }

    /// The place of the first octant of the node at place `i`: the octants
    /// of the nodes stand in the order of their parents, after the root.
    pub open spec fn first_child(self, nodes: Seq<NodeShape>, i: int) -> int {
        1 + 8 * self.expanded_before(nodes, i)
    }

    /// Whether the node at place `j` is handed the right to be drawn: the
    /// root is, and an octant is when its parent hands it down.
    pub open spec fn lit(self, nodes: Seq<NodeShape>, j: int) -> bool
        decreases j,
    {
        if j <= 0 {
            true
        } else {
            let parent = nodes[j].parent;
            if 0 <= parent < j {
                self.lit(nodes, parent) && self.expands(nodes[parent]) && self.children_ready(
                    nodes[parent],
                )
            } else {
                false
            }
        }
    }

    /// Whether the node at place `i` hands the right to be drawn down to its
    /// octants: it has the right, it is cut, and every octant is meshed or
    /// empty.
    pub open spec fn passes(self, nodes: Seq<NodeShape>, i: int) -> bool {
        self.lit(nodes, i) && self.expands(nodes[i]) && self.children_ready(nodes[i])
    }

    /// Whether the node at place `i` is drawn: it has the right, its mesh is
    /// in the cache, and it does not hand the right down.
    pub open spec fn draws(self, nodes: Seq<NodeShape>, i: int) -> bool {
        &&& self.lit(nodes, i)
        &&& (self.state)(nodes[i].chunk_id) == ChunkState::Available
        &&& !self.passes(nodes, i)
    }

    /// The regions that the cache is asked for, in order, when the octants
    /// of a region from octant `k` on are asked whether they are meshed or
    /// empty: a meshed octant is asked for once, any other twice, and after
    /// the first octant that is neither meshed nor empty no more are asked
    /// for.
    pub open spec fn asked_of_children(self, parent: ChunkId, k: int) -> Seq<ChunkId>
        decreases 8 - k,
    {
        if k < 0 || k >= 8 {
            Seq::empty()
        } else {
            let child = child_id(parent, k);
            if (self.state)(child) == ChunkState::Available {
                seq![child] + self.asked_of_children(parent, k + 1)
            } else if (self.state)(child) == ChunkState::Empty {
                seq![child, child] + self.asked_of_children(parent, k + 1)
            } else {
                seq![child, child]
            }
        }
    }

    /// The regions that the cache is asked for when the node at place `i`
    /// has its turn: the region of the node, and its octants if the node is
    /// cut and has the right to be drawn.
    pub open spec fn asked_at(self, nodes: Seq<NodeShape>, i: int) -> Seq<ChunkId> {
        if self.expands(nodes[i]) && self.lit(nodes, i) {
            seq![nodes[i].chunk_id] + self.asked_of_children(nodes[i].chunk_id, 0)
        } else {
            seq![nodes[i].chunk_id]
        }
    }

    /// The regions that the cache is asked for while the nodes before
    /// place `done` have their turn.
    pub open spec fn asked_before(self, nodes: Seq<NodeShape>, done: int) -> Seq<ChunkId>
        decreases done,
    {
        if done <= 0 {
            Seq::empty()
        } else {
            self.asked_before(nodes, done - 1) + self.asked_at(nodes, done - 1)
        }
    }

    /// The regions that the cache is asked for when a tree is rebuilt with
    /// these nodes as the result: first what the nodes ask for as they have
    /// their turn, then the region of every node once more, in order.
    pub open spec fn asked(self, nodes: Seq<OctreeNode>) -> Seq<ChunkId> {
        self.asked_before(shapes(nodes), nodes.len() as int) + ids(shapes(nodes))
    }

    /// The node at place `j` is one of the eight octants of its parent: the
    /// parent stands before it, is cut, and has the place of the node
    /// among the places of its octants.
    pub open spec fn is_octant(self, nodes: Seq<NodeShape>, j: int) -> bool {
        let parent = nodes[j].parent;
        &&& 0 <= parent < j
        &&& self.expands(nodes[parent])
        &&& self.first_child(nodes, parent) <= j < self.first_child(nodes, parent) + 8
    }

    /// The octants of the node at place `i` stand at `first` and the seven
    /// places after it.
    pub open spec fn has_children_at(self, nodes: Seq<OctreeNode>, i: int, first: int) -> bool {
        &&& first + 8 <= nodes.len()
        &&& nodes[i].children matches Some(children)
        &&& forall|k: int|
            0 <= k < 8 ==> {
                &&& children[k] == first + k
                &&& (#[trigger] nodes[first + k]).chunk_id == child_id(nodes[i].chunk_id, k)
                &&& nodes[first + k].level == nodes[i].level + 1
                &&& nodes[first + k].parent@ == i
            }
    }

    /// The first `done` nodes are finished: each that is cut has its
    /// octants in the array, at their place, and its flag says whether it
    /// is drawn. The edge of every node can be halved without loss down to
    /// the deepest level. The nodes after them wait: they have no octants yet, and
    /// their flag says whether they were handed the right to be drawn.
    pub open spec fn walked(self, nodes: Seq<OctreeNode>, root: ChunkId, done: int) -> bool {
        let shapes = shapes(nodes);
        &&& 0 <= done <= nodes.len()
        &&& nodes.len() == self.first_child(shapes, done)
        &&& nodes[0].chunk_id == root
        &&& nodes[0].level == 0
        &&& nodes[0].parent@ == -1
        &&& forall|i: int| 0 <= i < nodes.len() ==> (#[trigger] nodes[i]).wf()
        &&& forall|i: int| 0 <= i < nodes.len() ==> (#[trigger] nodes[i]).level <= self.max_level
        &&& forall|i: int|
            0 <= i < nodes.len() ==> halves(
                (#[trigger] nodes[i]).chunk_id.3 as int,
                self.max_level - nodes[i].level,
            )
        &&& forall|i: int| 1 <= i < nodes.len() ==> #[trigger] self.is_octant(shapes, i)
        &&& forall|i: int|
            0 <= i < done && self.expands(shapes[i]) ==> #[trigger] self.has_children_at(
                nodes,
                i,
                self.first_child(shapes, i),
            )
        &&& forall|i: int|
            0 <= i < nodes.len() && !(i < done && self.expands(shapes[i])) ==> (
            #[trigger] nodes[i]).children is None
        &&& forall|i: int| 0 <= i < done ==> (#[trigger] nodes[i]).draw == self.draws(shapes, i)
        &&& forall|i: int| done <= i < nodes.len() ==> (#[trigger] nodes[i]).draw == self.lit(shapes, i)
    }

    /// The array holds the whole tree of the traversal, breadth first.
    pub open spec fn traversal(self, nodes: Seq<OctreeNode>, root: ChunkId) -> bool {
        self.walked(nodes, root, nodes.len() as int)
    }
}

/// The regions of the nodes, in order.
pub open spec fn ids(nodes: Seq<NodeShape>) -> Seq<ChunkId> {
    nodes.map_values(|node: NodeShape| node.chunk_id)
}

/// The regions of the nodes that are drawn, in order.
pub open spec fn drawn_ids(nodes: Seq<OctreeNode>) -> Seq<ChunkId>
    decreases nodes.len(),
{
    if nodes.len() == 0 {
        Seq::empty()
    } else if nodes.last().draw {
        drawn_ids(nodes.drop_last()).push(nodes.last().chunk_id)
    } else {
        drawn_ids(nodes.drop_last())
    }
}

/// The regions of the nodes of which the cache knows nothing, in order.
pub open spec fn unknown_ids(nodes: Seq<OctreeNode>, state: spec_fn(ChunkId) -> ChunkState) -> Seq<
    ChunkId,
>
    decreases nodes.len(),
{
    if nodes.len() == 0 {
        Seq::empty()
    } else if state(nodes.last().chunk_id) == ChunkState::Unknown {
        unknown_ids(nodes.drop_last(), state).push(nodes.last().chunk_id)
    } else {
        unknown_ids(nodes.drop_last(), state)
    }
}

/// `longer` starts with the nodes of `shorter`.
pub open spec fn starts_with(longer: Seq<NodeShape>, shorter: Seq<NodeShape>) -> bool {
    &&& shorter.len() <= longer.len()
    &&& forall|i: int| 0 <= i < shorter.len() ==> longer[i] == shorter[i]
}

impl Walk {
    /// What is said of a place looks only at the nodes up to that place.
    proof fn lemma_prefix(self, longer: Seq<NodeShape>, shorter: Seq<NodeShape>, i: int)
        requires
            starts_with(longer, shorter),
            0 <= i <= shorter.len(),
        ensures
            self.expanded_before(longer, i) == self.expanded_before(shorter, i),
            i < shorter.len() ==> self.lit(longer, i) == self.lit(shorter, i),
            i < shorter.len() ==> self.passes(longer, i) == self.passes(shorter, i),
            i < shorter.len() ==> self.draws(longer, i) == self.draws(shorter, i),
            i < shorter.len() ==> self.asked_at(longer, i) == self.asked_at(shorter, i),
            i < shorter.len() ==> self.is_octant(longer, i) == self.is_octant(shorter, i),
            self.asked_before(longer, i) == self.asked_before(shorter, i),
        decreases i,
    {
        if i > 0 {
            self.lemma_prefix(longer, shorter, i - 1);
            if i < shorter.len() {
                let parent = shorter[i].parent;
                if 0 <= parent < i {
                    self.lemma_prefix(longer, shorter, parent);
                }
            }
        }
    }
}

impl Walk {
    /// The octants of a cut node stand before those of every later node.
    proof fn lemma_first_child_grows(self, nodes: Seq<NodeShape>, i: int, to: int)
        requires
            0 <= i < to,
            self.expands(nodes[i]),
        ensures
            self.first_child(nodes, to) >= self.first_child(nodes, i) + 8,
        decreases to,
    {
        if to - 1 > i {
            self.lemma_first_child_grows(nodes, i, to - 1);
        }
    }

    /// Two traversals from the same root have the same shapes as far as
    /// both go.
    proof fn lemma_same_shapes(self, a: Seq<OctreeNode>, b: Seq<OctreeNode>, root: ChunkId, m: int)
        requires
            self.traversal(a, root),
            self.traversal(b, root),
            0 <= m <= a.len(),
            m <= b.len(),
        ensures
            shapes(a).take(m) == shapes(b).take(m),
        decreases m,
    {
        let sa = shapes(a);
        let sb = shapes(b);
        if m == 0 {
            assert(sa.take(0) =~= sb.take(0));
        } else {
            let j = m - 1;
            self.lemma_same_shapes(a, b, root, j);
            let common = sa.take(j);
            assert(starts_with(sa, common));
            assert(starts_with(sb, common)) by {
                assert forall|i: int| 0 <= i < common.len() implies sb[i] == common[i] by {
                    assert(sb.take(j)[i] == sa.take(j)[i]);
                }
            }
            assert forall|p: int| 0 <= p <= j implies self.expanded_before(sa, p)
                == self.expanded_before(sb, p) by {
                self.lemma_prefix(sa, common, p);
                self.lemma_prefix(sb, common, p);
            }
            if j > 0 {
                assert(self.is_octant(sa, j));
                assert(self.is_octant(sb, j));
                let pa = sa[j].parent;
                let pb = sb[j].parent;
                assert(sa[pa] == common[pa] && sb[pa] == common[pa]);
                assert(sa[pb] == common[pb] && sb[pb] == common[pb]);
                if pa < pb {
                    self.lemma_first_child_grows(sa, pa, pb);
                } else if pb < pa {
                    self.lemma_first_child_grows(sa, pb, pa);
                }
                assert(pa == pb);
                let first = self.first_child(sa, pa);
                assert(self.has_children_at(a, pa, first));
                assert(self.has_children_at(b, pa, first));
                let k = j - first;
                assert(a[first + k].chunk_id == child_id(a[pa].chunk_id, k));
                assert(b[first + k].chunk_id == child_id(b[pa].chunk_id, k));
                assert(sa[j] == sb[j]);
            } else {
                assert(sa[0] == sb[0]);
            }
            assert(sa.take(m) =~= sb.take(m)) by {
                assert forall|i: int| 0 <= i < m implies sa.take(m)[i] == sb.take(m)[i] by {
                    if i < j {
                        assert(sa.take(j)[i] == sb.take(j)[i]);
                    }
                }
            }
        }
    }

    /// A traversal that has a node at a place has it in every traversal
    /// from the same root.
    proof fn lemma_same_length(self, a: Seq<OctreeNode>, b: Seq<OctreeNode>, root: ChunkId)
        requires
            self.traversal(a, root),
            self.traversal(b, root),
            a.len() <= b.len(),
        ensures
            a.len() == b.len(),
    {
        let sa = shapes(a);
        let sb = shapes(b);
        let j = a.len() as int;
        if j < b.len() {
            self.lemma_same_shapes(a, b, root, j);
            assert(self.is_octant(sb, j));
            let p = sb[j].parent;
            let common = sa.take(j);
            assert(starts_with(sa, common));
            assert(starts_with(sb, common)) by {
                assert forall|i: int| 0 <= i < common.len() implies sb[i] == common[i] by {
                    assert(sb.take(j)[i] == sa.take(j)[i]);
                }
            }
            self.lemma_prefix(sa, common, p);
            self.lemma_prefix(sb, common, p);
            assert(sa[p] == common[p] && sb[p] == common[p]);
            assert(self.has_children_at(a, p, self.first_child(sa, p)));
        }
    }

    /// The octants of a node of the tree that is cut are eight different
    /// regions, each with an edge half as long as the node's.
    pub proof fn lemma_octants_of_a_node(self, nodes: Seq<OctreeNode>, root: ChunkId, i: int)
        requires
            self.traversal(nodes, root),
            0 <= i < nodes.len(),
            self.expands(nodes[i].shape()),
        ensures
            forall|k: int|
                0 <= k < 8 ==> 2 * (#[trigger] child_id(nodes[i].chunk_id, k)).3
                    == nodes[i].chunk_id.3,
            forall|j: int, k: int|
                0 <= j < k < 8 ==> #[trigger] child_id(nodes[i].chunk_id, j) != #[trigger] child_id(
                    nodes[i].chunk_id,
                    k,
                ),
    {
        let parent = nodes[i].chunk_id;
        assert(nodes[i].wf());
        assert(halves(parent.3 as int, self.max_level - nodes[i].level));
        lemma_halves_is_positive(parent.3 as int / 2, self.max_level - nodes[i].level - 1);
        assert forall|j: int, k: int| 0 <= j < k < 8 implies #[trigger] child_id(parent, j)
            != #[trigger] child_id(parent, k) by {
            lemma_octants_differ(parent, j, k);
        }
    }

    /// A root that is not cut stands alone: the tree is the root, without
    /// octants, and it is drawn exactly when its mesh is in the cache. This
    /// is so when the deepest level is 0, when the viewpoint is far from
    /// the root, and while the root has no mesh.
    pub proof fn lemma_uncut_root_stands_alone(self, nodes: Seq<OctreeNode>, root: ChunkId)
        requires
            self.traversal(nodes, root),
            self.max_level == 0 || !near(root, self.focus) || (self.state)(root)
                != ChunkState::Available,
        ensures
            nodes.len() == 1,
            nodes[0].chunk_id == root,
            nodes[0].children is None,
            nodes[0].draw == ((self.state)(root) == ChunkState::Available),
            drawn_ids(nodes) == if (self.state)(root) == ChunkState::Available {
                seq![root]
            } else {
                Seq::<ChunkId>::empty()
            },
    {
        let shapes = shapes(nodes);
        assert(self.expanded_before(shapes, 0) == 0);
        assert(nodes.len() >= 1);
        assert(!self.expands(shapes[0]));
        if nodes.len() > 1 {
            assert(self.is_octant(shapes, 1));
        }
        assert(nodes[0].draw == self.draws(shapes, 0));
        assert(nodes.drop_last().len() == 0);
        assert(drawn_ids(nodes.drop_last()) =~= Seq::<ChunkId>::empty());
        assert(drawn_ids(nodes) =~= if (self.state)(root) == ChunkState::Available {
            seq![root]
        } else {
            Seq::<ChunkId>::empty()
        });
    }

    /// The traversal is determined by the root, the states of the regions,
    /// the deepest level and the viewpoint: two arrays that are both the
    /// traversal hold the same nodes.
    pub proof fn lemma_traversal_is_unique(
        self,
        a: Seq<OctreeNode>,
        b: Seq<OctreeNode>,
        root: ChunkId,
    )
        requires
            self.traversal(a, root),
            self.traversal(b, root),
        ensures
            a == b,
    {
        if a.len() <= b.len() {
            self.lemma_same_length(a, b, root);
        } else {
            self.lemma_same_length(b, a, root);
        }
        let n = a.len() as int;
        self.lemma_same_shapes(a, b, root, n);
        let sa = shapes(a);
        let sb = shapes(b);
        assert(sa.take(n) =~= sa);
        assert(sb.take(n) =~= sb);
        assert forall|i: int| 0 <= i < n implies a[i] == b[i] by {
            assert(sa[i] == sb[i]);
            assert(a[i].wf() && b[i].wf());
            assert(a[i].position.0@ =~= b[i].position.0@);
            assert(a[i].position.0 =~= b[i].position.0);
            assert(a[i].position == b[i].position);
            assert(a[i].draw == self.draws(sa, i));
            assert(b[i].draw == self.draws(sb, i));
            if self.expands(sa[i]) {
                let first = self.first_child(sa, i);
                assert(self.has_children_at(a, i, first));
                assert(self.has_children_at(b, i, first));
                let ca = a[i].children->0;
                let cb = b[i].children->0;
                assert forall|k: int| 0 <= k < 8 implies ca@[k] == cb@[k] by {
                    assert(a[first + k].parent@ == i);
                    assert(b[first + k].parent@ == i);
                    assert(ca[k] == first + k);
                    assert(cb[k] == first + k);
                }
                assert(ca@ =~= cb@);
                assert(ca =~= cb);
                assert(a[i].children == b[i].children);
            } else {
                assert(a[i].children is None && b[i].children is None);
            }
            assert(a[i].parent@ == b[i].parent@);
            assert(a[i].parent == b[i].parent);
        }
        assert(a =~= b);
    }
}

/// The most nodes that a tree of this many levels below its root can hold.
pub open spec fn subtree_bound(levels: nat) -> nat
    decreases levels,
{
    if levels == 0 {
        1
    } else {
        1 + 8 * subtree_bound((levels - 1) as nat)
    }
}

impl Walk {
    /// The most nodes that the tree below a node can hold, the node
    /// counted.
    pub open spec fn weight(self, node: NodeShape) -> nat {
        subtree_bound((self.max_level - node.level) as nat)
    }

    /// The weight of the nodes from place `from` on.
    pub open spec fn waiting_weight(self, nodes: Seq<NodeShape>, from: int) -> nat
        decreases nodes.len() - from,
    {
        if from < 0 || from >= nodes.len() {
            0
        } else {
            self.weight(nodes[from]) + self.waiting_weight(nodes, from + 1)
        }
    }

    proof fn lemma_weight_of_push(self, nodes: Seq<NodeShape>, node: NodeShape, from: int)
        requires
            0 <= from <= nodes.len(),
        ensures
            self.waiting_weight(nodes.push(node), from) == self.waiting_weight(nodes, from)
                + self.weight(node),
        decreases nodes.len() - from,
    {
        if from < nodes.len() {
            self.lemma_weight_of_push(nodes, node, from + 1);
        } else {
            assert(self.waiting_weight(nodes.push(node), from + 1) == 0);
        }
    }
}

/// What a traversal goes by when it asks the given cache.
pub open spec fn walk_of<Cache: ChunkCache>(cache: &Cache, max_level: u8, focus: Seq<i32>) -> Walk {
    Walk { state: |id: ChunkId| cache.state_of(id), max_level: max_level as int, focus }
}

/// The level-of-detail octree over a fixed root region.
pub struct Octree {
    pub nodes: Vec<OctreeNode>,
    pub node_stack: VecDeque<usize>,
    pub root: OctreeNode,
}

impl Octree {
    /// The root is a region that fits the coordinates, and no node waits.
    pub open spec fn wf(&self) -> bool {
        &&& self.root.wf()
        &&& self.root.level == 0
        &&& self.root.children is None
        &&& self.root.draw
        &&& self.root.parent@ == -1
        &&& self.root.size > 0
        &&& self.node_stack@.len() == 0
    }

    /// A tree over the cube at `position` with edge `size`.
    pub fn new(position: Vec3<i32>, size: u32) -> (octree: Self)
        requires
            region_fits(ChunkId::new_spec(position.0@, size)),
            size > 0,
        ensures
            octree.wf(),
            octree.root.chunk_id == ChunkId::new_spec(position.0@, size),
            octree.nodes@.len() == 0,
    {
        let root = OctreeNode::new(position, size, 0, true, Ghost(-1));
        proof {
            assert(root.position.0@ =~= root.chunk_id.position_spec());
        }
        Octree { nodes: Vec::new(), node_stack: VecDeque::with_capacity(64), root }
    }

    /// The places of eight nodes that follow one another.
    #[inline]
    pub fn new_children_indices(next_index: usize) -> (indices: [usize; 8])
        requires
            next_index + 7 <= usize::MAX,
        ensures
            forall|k: int| 0 <= k < 8 ==> indices[k] == next_index + k,
    {
        [
            next_index,
            next_index + 1,
            next_index + 2,
            next_index + 3,
            next_index + 4,
            next_index + 5,
            next_index + 6,
            next_index + 7,
        ]
    }

    /// The minimum corners of the eight octants of a cube, in the order of
    /// `OCTREE_OFFSETS`, and the length of their edge.
    #[inline]
    pub fn children_positions(position: &Vec3<i32>, size: u32) -> (children: ([Vec3<i32>; 8], u32))
        requires
            region_fits(ChunkId::new_spec(position.0@, size)),
        ensures
            children.1 == size / 2,
            forall|k: int|
                0 <= k < 8 ==> ChunkId::new_spec((#[trigger] children.0[k]).0@, children.1)
                    == child_id(ChunkId::new_spec(position.0@, size), k),
            forall|k: int|
                0 <= k < 8 ==> region_fits(
                    #[trigger] child_id(ChunkId::new_spec(position.0@, size), k),
                ),
    {
        let child_size = size / 2;
        let half = child_size as i32;
        let x = position.0[0];
        let y = position.0[1];
        let z = position.0[2];
        let positions = [
            Self::make_position(x, y, z, half, OCTREE_OFFSETS[0]),
            Self::make_position(x, y, z, half, OCTREE_OFFSETS[1]),
            Self::make_position(x, y, z, half, OCTREE_OFFSETS[2]),
            Self::make_position(x, y, z, half, OCTREE_OFFSETS[3]),
            Self::make_position(x, y, z, half, OCTREE_OFFSETS[4]),
            Self::make_position(x, y, z, half, OCTREE_OFFSETS[5]),
            Self::make_position(x, y, z, half, OCTREE_OFFSETS[6]),
            Self::make_position(x, y, z, half, OCTREE_OFFSETS[7]),
        ];
        (positions, child_size)
    }

    fn make_position(x: i32, y: i32, z: i32, child_size: i32, offset: (i32, i32, i32)) -> (position:
        Vec3<i32>)
        requires
            0 <= child_size,
            0 <= offset.0 <= 1,
            0 <= offset.1 <= 1,
            0 <= offset.2 <= 1,
            x + child_size <= i32::MAX,
            y + child_size <= i32::MAX,
            z + child_size <= i32::MAX,
        ensures
            position.0@ == seq![
                (x + child_size * offset.0) as i32,
                (y + child_size * offset.1) as i32,
                (z + child_size * offset.2) as i32,
            ],
            position.0[0] == x + child_size * offset.0,
            position.0[1] == y + child_size * offset.1,
            position.0[2] == z + child_size * offset.2,
    {
        assert(child_size * offset.0 == 0 || child_size * offset.0 == child_size)
            by (nonlinear_arith)
            requires
                0 <= offset.0 <= 1,
        ;
        assert(child_size * offset.1 == 0 || child_size * offset.1 == child_size)
            by (nonlinear_arith)
            requires
                0 <= offset.1 <= 1,
        ;
        assert(child_size * offset.2 == 0 || child_size * offset.2 == child_size)
            by (nonlinear_arith)
            requires
                0 <= offset.2 <= 1,
        ;
        Vec3::new(x + child_size * offset.0, y + child_size * offset.1, z + child_size * offset.2)
    }
}

/// `after` holds the nodes of `before` with the same shapes and the same
/// flags and octants, but for the node at place `at`, of which only the
/// shape is known to stay.
pub open spec fn same_but(after: Seq<OctreeNode>, before: Seq<OctreeNode>, at: int) -> bool {
    &&& before.len() <= after.len()
    &&& forall|i: int| 0 <= i < before.len() ==> (#[trigger] after[i]).shape() == before[i].shape()
    &&& forall|i: int| 0 <= i < before.len() ==> (#[trigger] after[i]).position == before[i].position
    &&& forall|i: int| 0 <= i < before.len() ==> (#[trigger] after[i]).size == before[i].size
    &&& forall|i: int| 0 <= i < before.len() && i != at ==> #[trigger] after[i] == before[i]
}

impl Walk {
    /// A node that is not cut is finished once its flag says whether its
    /// mesh is in the cache.
    proof fn lemma_walked_leaf(
        self,
        before: Seq<OctreeNode>,
        after: Seq<OctreeNode>,
        root: ChunkId,
        done: int,
    )
        requires
            self.walked(before, root, done),
            done < before.len(),
            !self.expands(before[done].shape()),
            after.len() == before.len(),
            same_but(after, before, done),
            after[done].children is None,
            after[done].draw == (before[done].draw && (self.state)(before[done].chunk_id)
                == ChunkState::Available),
        ensures
            self.walked(after, root, done + 1),
            self.waiting_weight(shapes(after), done + 1) < self.waiting_weight(
                shapes(before),
                done,
            ),
            self.asked_before(shapes(after), done + 1) == self.asked_before(shapes(before), done)
                + seq![before[done].chunk_id],
    {
        let old_shapes = shapes(before);
        let new_shapes = shapes(after);
        assert(new_shapes =~= old_shapes);
        assert(self.weight(old_shapes[done]) >= 1);
        assert forall|i: int| 0 <= i < after.len() implies halves(
            (#[trigger] after[i]).chunk_id.3 as int,
            self.max_level - after[i].level,
        ) by {
            assert(after[i].shape() == before[i].shape());
        }
        assert forall|i: int|
            0 <= i < done + 1 && self.expands(new_shapes[i]) implies #[trigger] self.has_children_at(
            after,
            i,
            self.first_child(new_shapes, i),
        ) by {
            let first = self.first_child(old_shapes, i);
            assert(self.has_children_at(before, i, first));
            assert forall|k: int| 0 <= k < 8 implies (#[trigger] after[first + k]).shape()
                == before[first + k].shape() by {}
        }
    }

    /// A node that is cut is finished once its eight octants stand at the
    /// end of the array and the right to be drawn is settled between it and
    /// them.
    proof fn lemma_walked_cut(
        self,
        before: Seq<OctreeNode>,
        after: Seq<OctreeNode>,
        root: ChunkId,
        done: int,
    )
        requires
            self.walked(before, root, done),
            done < before.len(),
            self.expands(before[done].shape()),
            after.len() == before.len() + 8,
            same_but(after, before, done),
            self.has_children_at(after, done, before.len() as int),
            after[done].draw == (before[done].draw && !self.children_ready(before[done].shape())),
            forall|k: int|
                0 <= k < 8 ==> {
                    &&& (#[trigger] after[before.len() + k]).wf()
                    &&& after[before.len() + k].children is None
                    &&& after[before.len() + k].draw == (before[done].draw && self.children_ready(
                        before[done].shape(),
                    ))
                },
        ensures
            self.walked(after, root, done + 1),
            self.waiting_weight(shapes(after), done + 1) < self.waiting_weight(
                shapes(before),
                done,
            ),
            self.asked_before(shapes(after), done + 1) == self.asked_before(shapes(before), done)
                + seq![before[done].chunk_id] + (if before[done].draw {
                self.asked_of_children(before[done].chunk_id, 0)
            } else {
                Seq::empty()
            }),
    {
        let old_shapes = shapes(before);
        let new_shapes = shapes(after);
        let n = before.len() as int;
        assert(starts_with(new_shapes, old_shapes));
        self.lemma_prefix(new_shapes, old_shapes, done);
        assert(before[done].draw == self.lit(old_shapes, done));
        assert forall|i: int| 0 <= i <= n implies self.expanded_before(new_shapes, i)
            == self.expanded_before(old_shapes, i) by {
            self.lemma_prefix(new_shapes, old_shapes, i);
        }
        assert forall|i: int| 0 <= i < n implies self.lit(new_shapes, i) == self.lit(old_shapes, i)
            && self.draws(new_shapes, i) == self.draws(old_shapes, i) && self.passes(new_shapes, i)
            == self.passes(old_shapes, i) by {
            self.lemma_prefix(new_shapes, old_shapes, i);
        }
        assert(self.expanded_before(new_shapes, done + 1) == self.expanded_before(old_shapes, done)
            + 1);
        assert forall|i: int|
            0 <= i < done + 1 && self.expands(new_shapes[i]) implies #[trigger] self.has_children_at(
            after,
            i,
            self.first_child(new_shapes, i),
        ) by {
            if i < done {
                let first = self.first_child(old_shapes, i);
                assert(self.has_children_at(before, i, first));
                assert forall|k: int| 0 <= k < 8 implies (#[trigger] after[first + k]).shape()
                    == before[first + k].shape() by {}
            }
        }
        assert forall|i: int| 0 <= i < after.len() implies (#[trigger] after[i]).level
            <= self.max_level && after[i].wf() && halves(
            after[i].chunk_id.3 as int,
            self.max_level - after[i].level,
        ) by {
            if i >= n {
                assert(after[n + (i - n)].level == after[done].level + 1);
                assert(after[n + (i - n)].chunk_id == child_id(after[done].chunk_id, i - n));
                assert(after[done].shape() == before[done].shape());
                assert(halves(
                    before[done].chunk_id.3 as int,
                    self.max_level - before[done].level,
                ));
            } else {
                assert(after[i].shape() == before[i].shape());
                assert(before[i].wf());
            }
        }
        assert forall|i: int| 1 <= i < after.len() implies #[trigger] self.is_octant(
            new_shapes,
            i,
        ) by {
            if i >= n {
                assert(after[n + (i - n)].parent@ == done);
            } else {
                assert(self.is_octant(old_shapes, i));
                self.lemma_prefix(new_shapes, old_shapes, i);
            }
        }
        assert forall|i: int|
            0 <= i < after.len() && !(i < done + 1 && self.expands(new_shapes[i])) implies (
        #[trigger] after[i]).children is None by {
            if i >= n {
                assert(after[n + (i - n)].children is None);
            } else {
                assert(before[i].children is None);
            }
        }
        assert forall|i: int| 0 <= i < done + 1 implies (#[trigger] after[i]).draw == self.draws(
            new_shapes,
            i,
        ) by {
            if i < done {
                assert(before[i].draw == self.draws(old_shapes, i));
            } else {
                assert(before[done].draw == self.lit(old_shapes, done));
            }
        }
        assert forall|i: int| done + 1 <= i < after.len() implies (#[trigger] after[i]).draw
            == self.lit(new_shapes, i) by {
            if i >= n {
                assert(after[n + (i - n)].parent@ == done);
                assert(new_shapes[i].parent == done);
                assert(new_shapes[done] == old_shapes[done]);
            }
        }
        self.lemma_weight_of_cut(old_shapes, new_shapes, done);
    }

    /// The weight of the waiting nodes after the first `k` octants of a
    /// node were added at the end.
    proof fn lemma_weight_of_octants(
        self,
        before: Seq<NodeShape>,
        after: Seq<NodeShape>,
        from: int,
        level: int,
        k: int,
    )
        requires
            0 <= from <= before.len(),
            0 <= k <= 8,
            after.len() == before.len() + 8,
            starts_with(after, before),
            forall|j: int| 0 <= j < 8 ==> (#[trigger] after[before.len() + j]).level == level,
        ensures
            self.waiting_weight(after.take(before.len() + k), from) == self.waiting_weight(
                before,
                from,
            ) + k * subtree_bound((self.max_level - level) as nat),
        decreases k,
    {
        let n = before.len() as int;
        if k == 0 {
            assert(after.take(n) =~= before);
        } else {
            self.lemma_weight_of_octants(before, after, from, level, k - 1);
            let node = after[n + (k - 1)];
            self.lemma_weight_of_push(after.take(n + k - 1), node, from);
            assert(after.take(n + k - 1).push(node) =~= after.take(n + k));
            let w = subtree_bound((self.max_level - level) as nat);
            assert(k * w == (k - 1) * w + w) by (nonlinear_arith);
        }
    }

    /// The octants of a node weigh less than the node.
    proof fn lemma_weight_of_cut(self, before: Seq<NodeShape>, after: Seq<NodeShape>, done: int)
        requires
            0 <= done < before.len(),
            before[done].level < self.max_level,
            after.len() == before.len() + 8,
            starts_with(after, before),
            forall|k: int|
                0 <= k < 8 ==> (#[trigger] after[before.len() + k]).level == before[done].level + 1,
        ensures
            self.waiting_weight(after, done + 1) < self.waiting_weight(before, done),
    {
        let n = before.len() as int;
        self.lemma_weight_of_octants(before, after, done + 1, before[done].level + 1, 8);
        assert(after.take(n + 8) =~= after);
    }
}

impl Octree {
    /// Whether every octant of a node that was just cut is meshed or known
    /// to be empty. The octants are asked in order, up to the first that is
    /// neither.
    fn children_are_ready<Cache: ChunkCache>(
        nodes: &Vec<OctreeNode>,
        children: &[usize; 8],
        chunk_cache: &mut Cache,
        Ghost(walk): Ghost<Walk>,
        Ghost(parent): Ghost<NodeShape>,
    ) -> (ready: bool)
        requires
            old(chunk_cache).valid(),
            forall|id: ChunkId| old(chunk_cache).state_of(id) == (walk.state)(id),
            forall|k: int|
                0 <= k < 8 ==> (#[trigger] children[k]) < nodes@.len() && nodes@[children[k] as int].chunk_id
                    == child_id(parent.chunk_id, k),
        ensures
            final(chunk_cache).valid(),
            final(chunk_cache).asked_since(
                old(chunk_cache),
                walk.asked_of_children(parent.chunk_id, 0),
            ),
            ready == walk.children_ready(parent),
    {
        let mut k: usize = 0;
        let mut missing = false;
        let ghost target = walk.asked_of_children(parent.chunk_id, 0);
        let ghost mut asked: Seq<ChunkId> = Seq::empty();
        proof {
            chunk_cache.lemma_asked_nothing();
            assert(asked + walk.asked_of_children(parent.chunk_id, 0) =~= target);
        }
        while k < 8 && !missing
            invariant
                k <= 8,
                old(chunk_cache).valid(),
                chunk_cache.valid(),
                chunk_cache.asked_since(old(chunk_cache), asked),
                target == walk.asked_of_children(parent.chunk_id, 0),
                missing ==> asked == target,
                !missing ==> asked + walk.asked_of_children(parent.chunk_id, k as int) == target,
                forall|id: ChunkId| old(chunk_cache).state_of(id) == (walk.state)(id),
                forall|j: int|
                    0 <= j < 8 ==> (#[trigger] children[j]) < nodes@.len() && nodes@[children[j] as int].chunk_id
                        == child_id(parent.chunk_id, j),
                forall|j: int|
                    0 <= j < k ==> (walk.state)(#[trigger] child_id(parent.chunk_id, j))
                        == ChunkState::Available || (walk.state)(child_id(parent.chunk_id, j))
                        == ChunkState::Empty,
                missing ==> !walk.children_ready(parent),
            decreases 8 - k, (if missing { 0int } else { 1int }),
        {
            let child_index = children[k];
            assert(children[k as int] < nodes@.len());
            let chunk_id = nodes[child_index].chunk_id;
            let ghost rest = walk.asked_of_children(parent.chunk_id, k as int + 1);
            let ghost entry = *chunk_cache;
            proof {
                entry.lemma_asked_same_states(old(chunk_cache), asked);
            }
            let available = chunk_cache.is_available(&chunk_id);
            let ghost once = *chunk_cache;
            proof {
                once.lemma_asked_more(&entry, old(chunk_cache), asked, seq![chunk_id]);
                once.lemma_asked_same_states(old(chunk_cache), asked + seq![chunk_id]);
            }
            if available {
                proof {
                    assert(asked + seq![chunk_id] + rest =~= asked + (seq![chunk_id] + rest));
                    asked = asked + seq![chunk_id];
                }
                k += 1;
            } else {
                let empty = chunk_cache.is_empty(&chunk_id);
                proof {
                    chunk_cache.lemma_asked_more(
                        &once,
                        old(chunk_cache),
                        asked + seq![chunk_id],
                        seq![chunk_id],
                    );
                    assert(asked + seq![chunk_id] + seq![chunk_id] =~= asked + seq![
                        chunk_id,
                        chunk_id,
                    ]);
                    assert(asked + seq![chunk_id, chunk_id] + rest =~= asked + (seq![
                        chunk_id,
                        chunk_id,
                    ] + rest));
                    asked = asked + seq![chunk_id, chunk_id];
                }
                if empty {
                    k += 1;
                } else {
                    proof {
                        let id = child_id(parent.chunk_id, k as int);
                        assert(!((walk.state)(id) == ChunkState::Available || (walk.state)(id)
                            == ChunkState::Empty));
                    }
                    missing = true;
                }
            }
        }
        proof {
            if !missing {
                assert(asked + walk.asked_of_children(parent.chunk_id, 8) =~= asked);
            }
        }
        !missing
    }

    /// Walks the tree breadth first from the nodes that wait in the queue.
    fn extend_node<Cache: ChunkCache>(
        node_stack: &mut VecDeque<usize>,
        nodes: &mut Vec<OctreeNode>,
        max_level: u8,
        focus: Vec3<i32>,
        chunk_cache: &mut Cache,
    )
        requires
            old(chunk_cache).valid(),
            old(nodes)@.len() == 1,
            old(nodes)@[0].wf(),
            old(nodes)@[0].level == 0,
            old(nodes)@[0].children is None,
            old(nodes)@[0].draw,
            old(nodes)@[0].parent@ == -1,
            halves(old(nodes)@[0].chunk_id.3 as int, max_level as int),
            old(node_stack)@ == seq![0usize],
        ensures
            final(chunk_cache).valid(),
            final(chunk_cache).asked_since(
                old(chunk_cache),
                walk_of(old(chunk_cache), max_level, focus.0@).asked_before(
                    shapes(final(nodes)@),
                    final(nodes)@.len() as int,
                ),
            ),
            walk_of(old(chunk_cache), max_level, focus.0@).traversal(
                final(nodes)@,
                old(nodes)@[0].chunk_id,
            ),
            final(node_stack)@.len() == 0,
    {
        let ghost walk = walk_of(chunk_cache, max_level, focus.0@);
        let ghost root = nodes@[0].chunk_id;
        let ghost mut done: int = 0;
        proof {
            chunk_cache.lemma_asked_nothing();
        }
        while node_stack.len() > 0
            invariant
                old(chunk_cache).valid(),
                chunk_cache.valid(),
                chunk_cache.asked_since(
                    old(chunk_cache),
                    walk.asked_before(shapes(nodes@), done),
                ),
                forall|id: ChunkId| old(chunk_cache).state_of(id) == (walk.state)(id),
                walk.max_level == max_level,
                walk.focus == focus.0@,
                walk.walked(nodes@, root, done),
                node_stack@.len() == nodes@.len() - done,
                forall|q: int| 0 <= q < node_stack@.len() ==> (#[trigger] node_stack@[q]) == done + q,
            decreases walk.waiting_weight(shapes(nodes@), done),
        {
            let ghost before = nodes@;
            let ghost waiting = node_stack@;
            let current_index = node_stack.pop_front().unwrap();
            assert(current_index == waiting[0]);
            let node = nodes[current_index];
            let ghost so_far = walk.asked_before(shapes(before), done);
            let ghost entry = *chunk_cache;
            proof {
                entry.lemma_asked_same_states(old(chunk_cache), so_far);
            }
            let is_available = chunk_cache.is_available(&node.chunk_id);
            let ghost asked = *chunk_cache;
            proof {
                asked.lemma_asked_more(&entry, old(chunk_cache), so_far, seq![node.chunk_id]);
                asked.lemma_asked_same_states(old(chunk_cache), so_far + seq![node.chunk_id]);
                assert(node.wf());
                assert(ChunkId::new_spec(node.position.0@, node.size) == node.chunk_id);
            }
            if !is_available || node.level >= max_level || !is_near(
                &node.position,
                node.size,
                &focus,
            ) {
                if !is_available {
                    nodes[current_index].draw = false;
                }
                proof {
                    assert(before[done].draw == walk.lit(shapes(before), done));
                    walk.lemma_walked_leaf(before, nodes@, root, done);
                }
            } else {
                let first_child_index = nodes.len();
                let (children_positions, child_size) = Octree::children_positions(
                    &node.position,
                    node.size,
                );
                let mut num_child: usize = 0;
                while num_child < 8
                    invariant
                        num_child <= 8,
                        first_child_index == before.len(),
                        current_index == done,
                        done < before.len(),
                        node == before[done],
                        node.level < 255,
                        child_size == node.size / 2,
                        nodes@.len() == first_child_index + num_child,
                        forall|i: int| 0 <= i < before.len() ==> #[trigger] nodes@[i] == before[i],
                        forall|k: int|
                            0 <= k < 8 ==> ChunkId::new_spec(
                                (#[trigger] children_positions[k]).0@,
                                child_size,
                            ) == child_id(node.chunk_id, k),
                        forall|k: int| 0 <= k < 8 ==> region_fits(#[trigger] child_id(node.chunk_id, k)),
                        forall|k: int|
                            0 <= k < num_child ==> {
                                &&& (#[trigger] nodes@[first_child_index + k]).wf()
                                &&& nodes@[first_child_index + k].chunk_id == child_id(
                                    node.chunk_id,
                                    k,
                                )
                                &&& nodes@[first_child_index + k].level == node.level + 1
                                &&& nodes@[first_child_index + k].parent@ == done
                                &&& nodes@[first_child_index + k].children is None
                                &&& !nodes@[first_child_index + k].draw
                            },
                        node_stack@.len() == before.len() - done - 1 + num_child,
                        forall|q: int|
                            0 <= q < node_stack@.len() ==> (#[trigger] node_stack@[q]) == done + 1
                                + q,
                    decreases 8 - num_child,
                {
                    let child = OctreeNode::new(
                        children_positions[num_child],
                        child_size,
                        node.level + 1,
                        false,
                        Ghost(current_index as int),
                    );
                    proof {
                        assert(child.position.0@ =~= child.chunk_id.position_spec());
                        assert(region_fits(child_id(node.chunk_id, num_child as int)));
                    }
                    nodes.push(child);
                    assert(nodes.len() == first_child_index + num_child + 1);
                    node_stack.push_back(first_child_index + num_child);
                    num_child += 1;
                }
                assert(nodes.len() == first_child_index + 8);
                let children = Octree::new_children_indices(first_child_index);
                nodes[current_index].children = Some(children);
                let lit = nodes[current_index].draw;
                let draw_children = if lit {
                    let ready = Self::children_are_ready(
                        nodes,
                        &children,
                        chunk_cache,
                        Ghost(walk),
                        Ghost(node.shape()),
                    );
                    proof {
                        chunk_cache.lemma_asked_more(
                            &asked,
                            old(chunk_cache),
                            so_far + seq![node.chunk_id],
                            walk.asked_of_children(node.chunk_id, 0),
                        );
                    }
                    ready
                } else {
                    false
                };
                if draw_children {
                    nodes[current_index].draw = false;
                    let ghost old_nodes = nodes@;
                    let mut k: usize = 0;
                    while k < 8
                        invariant
                            k <= 8,
                            nodes@.len() == first_child_index + 8,
                            old_nodes.len() == first_child_index + 8,
                            current_index < first_child_index,
                            forall|j: int| 0 <= j < 8 ==> children[j] == first_child_index + j,
                            forall|i: int|
                                0 <= i < first_child_index ==> #[trigger] nodes@[i] == old_nodes[i],
                            forall|j: int|
                                0 <= j < 8 ==> (#[trigger] nodes@[first_child_index + j]).shape()
                                    == old_nodes[first_child_index + j].shape() && nodes@[first_child_index
                                    + j].wf() && nodes@[first_child_index + j].children is None,
                            forall|j: int|
                                0 <= j < k ==> (#[trigger] nodes@[first_child_index + j]).draw,
                        decreases 8 - k,
                    {
                        let child_index = children[k];
                        assert(children[k as int] == first_child_index + k);
                        nodes[child_index].draw = true;
                        k += 1;
                    }
                }
                proof {
                    assert(before[done].draw == walk.lit(shapes(before), done));
                    walk.lemma_walked_cut(before, nodes@, root, done);
                }
            }
            proof {
                done = done + 1;
            }
        }
    }
}

impl Octree {
    /// Rebuilds the tree for a viewpoint and lists the regions to draw and
    /// the regions to fetch.
    ///
    /// The tree is walked from the root down to `max_level`. The first list
    /// holds the regions of the nodes that are drawn, the second those of
    /// the nodes of which the cache knows nothing, both in the order of the
    /// nodes. Every region that is drawn has its mesh in the cache, so the
    /// two lists share no region.
    pub fn rebuild<Cache: ChunkCache>(
        &mut self,
        max_level: u8,
        focus: Vec3<i32>,
        chunk_cache: &mut Cache,
    ) -> (ids: (Vec<ChunkId>, Vec<ChunkId>))
        requires
            old(self).wf(),
            halves(old(self).root.chunk_id.3 as int, max_level as int),
            old(chunk_cache).valid(),
        ensures
            final(self).wf(),
            final(self).root == old(self).root,
            final(chunk_cache).valid(),
            final(chunk_cache).asked_since(
                old(chunk_cache),
                walk_of(old(chunk_cache), max_level, focus.0@).asked(final(self).nodes@),
            ),
            walk_of(old(chunk_cache), max_level, focus.0@).traversal(
                final(self).nodes@,
                old(self).root.chunk_id,
            ),
            ids.0@ == drawn_ids(final(self).nodes@),
            ids.1@ == unknown_ids(
                final(self).nodes@,
                walk_of(old(chunk_cache), max_level, focus.0@).state,
            ),
            forall|i: int|
                0 <= i < ids.0@.len() ==> old(chunk_cache).state_of(#[trigger] ids.0@[i])
                    == ChunkState::Available,
            forall|i: int|
                0 <= i < ids.1@.len() ==> old(chunk_cache).state_of(#[trigger] ids.1@[i])
                    == ChunkState::Unknown,
            forall|i: int, j: int|
                0 <= i < ids.0@.len() && 0 <= j < ids.1@.len() ==> #[trigger] ids.0@[i]
                    != #[trigger] ids.1@[j],
    {
        let ghost walk = walk_of(chunk_cache, max_level, focus.0@);
        self.nodes.clear();
        self.nodes.push(self.root);
        self.node_stack.push_back(0);
        assert(self.node_stack@ =~= seq![0usize]);
        Octree::extend_node(&mut self.node_stack, &mut self.nodes, max_level, focus, chunk_cache);
        proof {
            let asked = walk.asked_before(shapes(self.nodes@), self.nodes@.len() as int);
            assert(asked + ids(shapes(self.nodes@)).take(0) =~= asked);
        }

        let mut draw_chunk_ids: Vec<ChunkId> = Vec::new();
        let mut fetch_chunk_ids: Vec<ChunkId> = Vec::new();
        let mut i: usize = 0;
        while i < self.nodes.len()
            invariant
                i <= self.nodes@.len(),
                self.wf(),
                self.root == old(self).root,
                old(chunk_cache).valid(),
                chunk_cache.valid(),
                chunk_cache.asked_since(
                    old(chunk_cache),
                    walk.asked_before(shapes(self.nodes@), self.nodes@.len() as int) + ids(
                        shapes(self.nodes@),
                    ).take(i as int),
                ),
                forall|id: ChunkId| old(chunk_cache).state_of(id) == (walk.state)(id),
                walk.traversal(self.nodes@, self.root.chunk_id),
                draw_chunk_ids@ == drawn_ids(self.nodes@.take(i as int)),
                fetch_chunk_ids@ == unknown_ids(self.nodes@.take(i as int), walk.state),
                forall|k: int|
                    0 <= k < draw_chunk_ids@.len() ==> (walk.state)(#[trigger] draw_chunk_ids@[k])
                        == ChunkState::Available,
                forall|k: int|
                    0 <= k < fetch_chunk_ids@.len() ==> (walk.state)(#[trigger] fetch_chunk_ids@[k])
                        == ChunkState::Unknown,
            decreases self.nodes@.len() - i,
        {
            let node = self.nodes[i];
            proof {
                assert(self.nodes@.take(i as int + 1).drop_last() =~= self.nodes@.take(i as int));
                assert(self.nodes@.take(i as int + 1).last() == node);
                assert(node.draw == walk.draws(shapes(self.nodes@), i as int));
            }
            if node.draw {
                draw_chunk_ids.push(node.chunk_id);
            }
            let ghost entry = *chunk_cache;
            let ghost so_far = walk.asked_before(shapes(self.nodes@), self.nodes@.len() as int)
                + ids(shapes(self.nodes@)).take(i as int);
            proof {
                entry.lemma_asked_same_states(old(chunk_cache), so_far);
            }
            if chunk_cache.is_unknown(&node.chunk_id) {
                fetch_chunk_ids.push(node.chunk_id);
            }
            proof {
                chunk_cache.lemma_asked_more(
                    &entry,
                    old(chunk_cache),
                    so_far,
                    seq![node.chunk_id],
                );
                assert(so_far + seq![node.chunk_id] =~= walk.asked_before(
                    shapes(self.nodes@),
                    self.nodes@.len() as int,
                ) + ids(shapes(self.nodes@)).take(i as int + 1));
            }
            i += 1;
        }
        proof {
            assert(self.nodes@.take(self.nodes@.len() as int) =~= self.nodes@);
            assert(ids(shapes(self.nodes@)).take(self.nodes@.len() as int) =~= ids(
                shapes(self.nodes@),
            ));
        }
        (draw_chunk_ids, fetch_chunk_ids)
    }
}

} // verus!

//! The identity of a cubical region of space.
//!
//! Lengths are counted in steps of the quantization grid: one unit of world
//! length is `OCTREE_VOXEL_DENSITY` steps. A region is named by its minimum
//! corner and the length of its edge, both on the grid.
use vstd::prelude::*;
use crate::math::vector::Vec3;

verus! {

/// The number of grid steps in one unit of world length.
pub const OCTREE_VOXEL_DENSITY: u32 = 8;

/// The minimum corner `(x, y, z)` and the edge length of a cubical region, in
/// grid steps.
#[derive(Copy, Clone, Debug, Hash, PartialEq, Eq, PartialOrd, Ord, Structural)]
pub struct ChunkId(pub i32, pub i32, pub i32, pub u32);

impl ChunkId {
    /// The identity of the region at `position` with edge `size`.
    pub open spec fn new_spec(position: Seq<i32>, size: u32) -> ChunkId {
        ChunkId(position[0], position[1], position[2], size)
    }

    /// The minimum corner of the region.
    pub open spec fn position_spec(self) -> Seq<i32> {
        seq![self.0, self.1, self.2]
    }

    /// The edge length of the region.
    pub open spec fn size_spec(self) -> u32 {
        self.3
    }

    /// The identity as one number: the four components, each moved into the
    /// non-negative range, written as the digits of a number in base `2^32`.
    pub open spec fn key_spec(self) -> u128 {
        ((((self.0 + 0x8000_0000) * 0x1_0000_0000 + (self.1 + 0x8000_0000)) * 0x1_0000_0000 + (
        self.2 + 0x8000_0000)) * 0x1_0000_0000 + self.3) as u128
    }

    #[inline]
    pub fn new(position: &Vec3<i32>, size: u32) -> (id: Self)
        ensures
            id == Self::new_spec(position.0@, size),
    {
        ChunkId(position.0[0], position.0[1], position.0[2], size)
    }

    #[inline]
    pub fn position(&self) -> (position: Vec3<i32>)
        ensures
            position.0@ == self.position_spec(),
    {
        Vec3::new(self.0, self.1, self.2)
    }

    #[inline]
    pub fn size(&self) -> (size: u32)
        ensures
            size == self.size_spec(),
    {
        self.3
    }

    /// The identity as one number, by which caches find it.
    pub fn key(&self) -> (key: u128)
        ensures
            key == self.key_spec(),
    {
        let x: u128 = (self.0 as i64 + 0x8000_0000) as u128;
        let y: u128 = (self.1 as i64 + 0x8000_0000) as u128;
        let z: u128 = (self.2 as i64 + 0x8000_0000) as u128;
        ((x * 0x1_0000_0000 + y) * 0x1_0000_0000 + z) * 0x1_0000_0000 + self.3 as u128
    }

    /// Two regions with the same key are the same region.
    pub proof fn lemma_key_is_injective(a: ChunkId, b: ChunkId)
        requires
            a.key_spec() == b.key_spec(),
        ensures
            a == b,
    {
    }

    /// A region made from a corner and an edge length gives both back.
    pub proof fn lemma_round_trip(position: Seq<i32>, size: u32)
        requires
            position.len() == 3,
        ensures
            Self::new_spec(position, size).position_spec() == position,
            Self::new_spec(position, size).size_spec() == size,
    {
        assert(Self::new_spec(position, size).position_spec() =~= position);
    }

    /// Regions with the same corner and edge have the same identity.
    pub proof fn lemma_same_region_same_id(a: ChunkId, b: ChunkId)
        requires
            a.position_spec() == b.position_spec(),
            a.size_spec() == b.size_spec(),
        ensures
            a == b,
    {
        assert(a.position_spec()[0] == b.position_spec()[0]);
        assert(a.position_spec()[1] == b.position_spec()[1]);
        assert(a.position_spec()[2] == b.position_spec()[2]);
    }
}

} // verus!

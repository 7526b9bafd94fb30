use terrain::chunk_id::{ChunkId, OCTREE_VOXEL_DENSITY};
use terrain::math::vector::Vec3;

#[test]
fn voxel_density_is_eight_steps_to_the_unit() {
    assert_eq!(OCTREE_VOXEL_DENSITY, 8);
}

#[test]
fn chunk_id_round_trip() {
    let position = Vec3::new(-131072, 65536, 0);
    let id = ChunkId::new(&position, 262144);
    assert_eq!(id.position().0, [-131072, 65536, 0]);
    assert_eq!(id.size(), 262144);
}

#[test]
fn chunk_id_round_trip_over_the_levels_of_a_tree() {
    let root_size: u32 = 32768 * OCTREE_VOXEL_DENSITY;
    for level in 0..18 {
        let size = root_size >> level;
        for step in [-3i32, -1, 0, 1, 5] {
            let corner = step * size as i32;
            let id = ChunkId::new(&Vec3::new(corner, -corner, corner / 2), size);
            assert_eq!(id.position().0, [corner, -corner, corner / 2]);
            assert_eq!(id.size(), size);
        }
    }
}

#[test]
fn same_region_same_id() {
    let a = ChunkId::new(&Vec3::new(8, 16, 24), 8);
    let b = ChunkId::new(&Vec3::from_array([8, 16, 24]), 8);
    assert_eq!(a, b);
    assert_eq!(a, ChunkId(8, 16, 24, 8));
    assert_ne!(a, ChunkId::new(&Vec3::new(8, 16, 24), 16));
    assert_ne!(a, ChunkId::new(&Vec3::new(8, 16, 25), 8));
}

#[test]
fn key_writes_the_components_as_digits() {
    assert_eq!(ChunkId(i32::MIN, i32::MIN, i32::MIN, 0).key(), 0);
    assert_eq!(ChunkId(i32::MIN, i32::MIN, i32::MIN, 7).key(), 7);
    assert_eq!(ChunkId(i32::MIN, i32::MIN, i32::MIN + 1, 0).key(), 1u128 << 32);
    assert_eq!(ChunkId(i32::MIN, i32::MIN + 1, i32::MIN, 0).key(), 1u128 << 64);
    assert_eq!(ChunkId(i32::MIN + 1, i32::MIN, i32::MIN, 0).key(), 1u128 << 96);
    assert_eq!(ChunkId(0, 0, 0, 0).key(), (1u128 << 127) + (1u128 << 95) + (1u128 << 63));
    assert_eq!(ChunkId(i32::MAX, i32::MAX, i32::MAX, u32::MAX).key(), u128::MAX);
}

#[test]
fn keys_of_different_regions_differ() {
    let ids = [
        ChunkId(0, 0, 0, 8),
        ChunkId(0, 0, 8, 8),
        ChunkId(0, 8, 0, 8),
        ChunkId(8, 0, 0, 8),
        ChunkId(0, 0, 0, 16),
        ChunkId(-8, 0, 0, 8),
        ChunkId(0, -8, 0, 8),
        ChunkId(0, 0, -8, 8),
    ];
    for (i, a) in ids.iter().enumerate() {
        for (j, b) in ids.iter().enumerate() {
            assert_eq!(a.key() == b.key(), i == j);
        }
    }
}

//! Adaptive level-of-detail streaming of an implicit surface.
//!
//! The crate holds the decision logic of a terrain engine on the integer
//! quantization grid: chunk identities, the octree that picks what to draw and
//! what to fetch, the chunk cache with its state machine, the bookkeeping that
//! mirrors drawn chunks into a physics world, the combinatorial half of
//! marching cubes, and the gestures read off keyboard and mouse. Sampling a
//! field, interpolating positions and talking to the GPU belong to the
//! program around it.
pub mod chunk_cache;
pub mod chunk_id;
pub mod cube_tables;
pub mod input;
pub mod lod;
pub mod lru;
pub mod marching_cubes;
pub mod math;
pub mod mesh;
pub mod octree;
pub mod physics;

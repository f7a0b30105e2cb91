//! Voxel terrain for the demo: block ids, chunk storage, greedy meshing,
//! terrain columns and the chunk loading queue.
pub mod block;
pub mod chunk;
pub mod greedy;
pub mod mesher;
pub mod world;
pub mod worldgen;

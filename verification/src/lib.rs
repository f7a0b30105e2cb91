//! Verified core of a small OpenGL rendering engine and its voxel demo.
use vstd::prelude::*;

pub mod demo;
pub mod distinct;
pub mod free_list;
pub mod resources;
pub mod gl;
pub mod ranking;
pub mod render;
pub mod triple_buffer;
pub mod voxel;

verus! {

} // verus!

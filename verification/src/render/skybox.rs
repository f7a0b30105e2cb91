//! Skybox handle.
use vstd::prelude::*;

verus! {

/// Handle of a skybox.
#[derive(Debug, Clone, Copy, PartialEq, Eq, PartialOrd, Ord, Hash, Structural)]
pub struct SkyboxId(pub u32);

} // verus!

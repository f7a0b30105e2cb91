//! GPU asset ids the demo creates at startup.
use vstd::prelude::*;
use crate::render::renderer::MeshId;
use crate::resources::material::MaterialId;
use crate::resources::shader::ShaderId;

verus! {

/// Startup-only GPU asset ids. Terrain meshes are not here: they stream in
/// per chunk and are tracked on the render thread.
pub struct Assets {
    pub quad_mesh: MeshId,
    pub button_quad_mesh: MeshId,
    pub vsync_button_mesh: MeshId,
    pub wireframe_button_mesh: MeshId,
    pub terrain_material: MaterialId,
    pub ui_material: MaterialId,
    pub lit_shader: ShaderId,
}

} // verus!

//! Materials: a shader, a pipeline state and texture bindings per material.
use vstd::prelude::*;
use std::collections::HashMap;
use std::collections::hash_map::Entry;
use crate::render::pipeline::PipelineStateId;
use crate::resources::texture::TextureId;
use crate::resources::shader::ShaderId;

verus! {

/// Handle of a material.
#[derive(Debug, Clone, Copy, PartialEq, Eq, PartialOrd, Ord, Hash, Structural)]
pub struct MaterialId(pub u32);

/// Everything a material binds; `P` holds its surface properties.
#[derive(Debug, Clone)]
pub struct MaterialEntry<P> {
    pub shader_id: ShaderId,
    pub pipeline_id: PipelineStateId,
    /// Base colour texture.
    pub texture_id: Option<TextureId>,
    /// Normal map.
    pub normal_texture_id: Option<TextureId>,
    /// Metallic (R) / roughness (G) texture.
    pub metallic_roughness_texture_id: Option<TextureId>,
    /// Ambient occlusion texture.
    pub ao_texture_id: Option<TextureId>,
    /// Emissive texture.
    pub emissive_texture_id: Option<TextureId>,
    pub properties: P,
}

/// Materials by id; ids are handed out in order and never reused.
pub struct MaterialManager<P> {
    materials: HashMap<u32, MaterialEntry<P>>,
    next_id: u32,
}

impl<P: Default + Clone> MaterialManager<P> {
    /// Materials by raw id.
    pub closed spec fn materials(&self) -> Map<u32, MaterialEntry<P>> {
        self.materials@
    }

    /// The id the next material gets.
    pub closed spec fn next(&self) -> u32 {
        self.next_id
    }

    /// Every material id is below the next one.
    pub open spec fn wf(&self) -> bool {
        forall|k: u32| #[trigger] self.materials().contains_key(k) ==> k < self.next()
    }

    /// No materials.
    pub fn new() -> (r: Self)
        ensures
            r.wf(),
            r.materials() == Map::<u32, MaterialEntry<P>>::empty(),
            r.next() == 0,
    {
        Self { materials: HashMap::new(), next_id: 0 }
    }

    /// A material with no textures and default properties.
    pub fn create_material(&mut self, shader_id: ShaderId, pipeline_id: PipelineStateId) -> (r:
        MaterialId)
        requires
            old(self).wf(),
            old(self).next() < u32::MAX,
        ensures
            final(self).wf(),
            r.0 == old(self).next(),
            final(self).next() == old(self).next() + 1,
            final(self).materials().dom() == old(self).materials().dom().insert(r.0),
            forall|k: u32| k != r.0 && #[trigger] old(self).materials().contains_key(k)
                ==> final(self).materials()[k] == old(self).materials()[k],
            ({
                let e = final(self).materials()[r.0];
                &&& e.shader_id == shader_id
                &&& e.pipeline_id == pipeline_id
                &&& e.texture_id is None
                &&& e.normal_texture_id is None
                &&& e.metallic_roughness_texture_id is None
                &&& e.ao_texture_id is None
                &&& e.emissive_texture_id is None
            }),
    {
        self.create_material_full(shader_id, pipeline_id, None, None, None, None, P::default())
    }

    /// A material with a base colour texture and default properties.
    pub fn create_material_with_texture(
        &mut self,
        shader_id: ShaderId,
        pipeline_id: PipelineStateId,
        texture_id: Option<TextureId>,
    ) -> (r: MaterialId)
        requires
            old(self).wf(),
            old(self).next() < u32::MAX,
        ensures
            final(self).wf(),
            r.0 == old(self).next(),
            final(self).next() == old(self).next() + 1,
            final(self).materials().dom() == old(self).materials().dom().insert(r.0),
            forall|k: u32| k != r.0 && #[trigger] old(self).materials().contains_key(k)
                ==> final(self).materials()[k] == old(self).materials()[k],
            ({
                let e = final(self).materials()[r.0];
                &&& e.shader_id == shader_id
                &&& e.pipeline_id == pipeline_id
                &&& e.texture_id == texture_id
                &&& e.normal_texture_id is None
                &&& e.metallic_roughness_texture_id is None
                &&& e.ao_texture_id is None
                &&& e.emissive_texture_id is None
            }),
    {
        self.create_material_full(shader_id, pipeline_id, texture_id, None, None, None, P::default())
    }

    /// A material with the given bindings and properties (and no emissive
    /// texture) under the next id.
    pub fn create_material_full(
        &mut self,
        shader_id: ShaderId,
        pipeline_id: PipelineStateId,
        texture_id: Option<TextureId>,
        normal_texture_id: Option<TextureId>,
        metallic_roughness_texture_id: Option<TextureId>,
        ao_texture_id: Option<TextureId>,
        properties: P,
    ) -> (r: MaterialId)
        requires
            old(self).wf(),
            old(self).next() < u32::MAX,
        ensures
            final(self).wf(),
            r.0 == old(self).next(),
            final(self).next() == old(self).next() + 1,
            !old(self).materials().contains_key(r.0),
            final(self).materials() == old(self).materials().insert(
                r.0,
                MaterialEntry {
                    shader_id,
                    pipeline_id,
                    texture_id,
                    normal_texture_id,
                    metallic_roughness_texture_id,
                    ao_texture_id,
                    emissive_texture_id: None,
                    properties,
                },
            ),
    {
        let id = MaterialId(self.next_id);
        self.next_id = self.next_id + 1;
        self.materials.insert(
            id.0,
            MaterialEntry {
                shader_id,
                pipeline_id,
                texture_id,
                normal_texture_id,
                metallic_roughness_texture_id,
                ao_texture_id,
                emissive_texture_id: None,
                properties,
            },
        );
        assert forall|k: u32| #[trigger] self.materials().contains_key(k) implies k < self.next() by {
            if k != id.0 {
                assert(old(self).materials().contains_key(k));
            }
        }
        id
    }

    /// The id the next material gets.
    pub fn next_id(&self) -> (r: MaterialId)
        ensures
            r.0 == self.next(),
    {
        MaterialId(self.next_id)
    }

    /// The material `id`.
    pub fn get(&self, id: MaterialId) -> (r: Option<&MaterialEntry<P>>)
        ensures
            r == (if self.materials().contains_key(id.0) {
                Some(&self.materials()[id.0])
            } else {
                None
            }),
    {
        self.materials.get(&id.0)
    }

    /// Mutable access to material `id`.
    pub fn get_mut(&mut self, id: MaterialId) -> (r: Option<&mut MaterialEntry<P>>)
        requires
            old(self).wf(),
        ensures
            final(self).next() == old(self).next(),
            match r {
                Some(e) => old(self).materials().contains_key(id.0) && *e == old(
                    self,
                ).materials()[id.0] && final(self).materials() == old(self).materials().insert(
                    id.0,
                    *final(e),
                ),
                None => !old(self).materials().contains_key(id.0) && final(self).materials()
                    == old(self).materials(),
            },
    {
        match self.materials.entry(id.0) {
            Entry::Occupied(o) => Some(o.into_mut()),
            Entry::Vacant(_) => None,
        }
    }
}

impl<P: Default + Clone> MaterialManager<P> {
    /// Sets the base colour texture of material `material_id`; `false` if there is no
    /// such material.
    pub fn set_texture(&mut self, material_id: MaterialId, texture_id: Option<TextureId>) -> (r: bool)
        requires
            old(self).wf(),
        ensures
            final(self).wf(),
            final(self).next() == old(self).next(),
            r == old(self).materials().contains_key(material_id.0),
            final(self).materials() == (if r {
                old(self).materials().insert(
                    material_id.0,
                    MaterialEntry { texture_id: texture_id, ..old(self).materials()[material_id.0] },
                )
            } else {
                old(self).materials()
            }),
    {
        match self.get_mut(material_id) {
            Some(mat) => {
                mat.texture_id = texture_id;
                true
            },
            None => false,
        }
    }

    /// Sets the normal map of material `material_id`; `false` if there is no
    /// such material.
    pub fn set_normal_texture(&mut self, material_id: MaterialId, texture_id: Option<TextureId>) -> (r: bool)
        requires
            old(self).wf(),
        ensures
            final(self).wf(),
            final(self).next() == old(self).next(),
            r == old(self).materials().contains_key(material_id.0),
            final(self).materials() == (if r {
                old(self).materials().insert(
                    material_id.0,
                    MaterialEntry { normal_texture_id: texture_id, ..old(self).materials()[material_id.0] },
                )
            } else {
                old(self).materials()
            }),
    {
        match self.get_mut(material_id) {
            Some(mat) => {
                mat.normal_texture_id = texture_id;
                true
            },
            None => false,
        }
    }

    /// Sets the metallic/roughness texture of material `material_id`; `false` if there is no
    /// such material.
    pub fn set_metallic_roughness_texture(&mut self, material_id: MaterialId, texture_id: Option<TextureId>) -> (r: bool)
        requires
            old(self).wf(),
        ensures
            final(self).wf(),
            final(self).next() == old(self).next(),
            r == old(self).materials().contains_key(material_id.0),
            final(self).materials() == (if r {
                old(self).materials().insert(
                    material_id.0,
                    MaterialEntry { metallic_roughness_texture_id: texture_id, ..old(self).materials()[material_id.0] },
                )
            } else {
                old(self).materials()
            }),
    {
        match self.get_mut(material_id) {
            Some(mat) => {
                mat.metallic_roughness_texture_id = texture_id;
                true
            },
            None => false,
        }
    }

    /// Sets the ambient occlusion texture of material `material_id`; `false` if there is no
    /// such material.
    pub fn set_ao_texture(&mut self, material_id: MaterialId, texture_id: Option<TextureId>) -> (r: bool)
        requires
            old(self).wf(),
        ensures
            final(self).wf(),
            final(self).next() == old(self).next(),
            r == old(self).materials().contains_key(material_id.0),
            final(self).materials() == (if r {
                old(self).materials().insert(
                    material_id.0,
                    MaterialEntry { ao_texture_id: texture_id, ..old(self).materials()[material_id.0] },
                )
            } else {
                old(self).materials()
            }),
    {
        match self.get_mut(material_id) {
            Some(mat) => {
                mat.ao_texture_id = texture_id;
                true
            },
            None => false,
        }
    }

    /// Sets the emissive texture of material `material_id`; `false` if there is no
    /// such material.
    pub fn set_emissive_texture(&mut self, material_id: MaterialId, texture_id: Option<TextureId>) -> (r: bool)
        requires
            old(self).wf(),
        ensures
            final(self).wf(),
            final(self).next() == old(self).next(),
            r == old(self).materials().contains_key(material_id.0),
            final(self).materials() == (if r {
                old(self).materials().insert(
                    material_id.0,
                    MaterialEntry { emissive_texture_id: texture_id, ..old(self).materials()[material_id.0] },
                )
            } else {
                old(self).materials()
            }),
    {
        match self.get_mut(material_id) {
            Some(mat) => {
                mat.emissive_texture_id = texture_id;
                true
            },
            None => false,
        }
    }

    /// Replaces the properties of material `material_id`; `false` if there
    /// is no such material.
    pub fn set_properties(&mut self, material_id: MaterialId, properties: P) -> (r: bool)
        requires
            old(self).wf(),
        ensures
            final(self).wf(),
            final(self).next() == old(self).next(),
            r == old(self).materials().contains_key(material_id.0),
            final(self).materials() == (if r {
                old(self).materials().insert(
                    material_id.0,
                    MaterialEntry { properties, ..old(self).materials()[material_id.0] },
                )
            } else {
                old(self).materials()
            }),
    {
        match self.get_mut(material_id) {
            Some(mat) => {
                mat.properties = properties;
                true
            },
            None => false,
        }
    }
}

impl<P: Default + Clone> Default for MaterialManager<P> {
    fn default() -> (r: Self)
        ensures
            r.wf(),
            r.materials() == Map::<u32, MaterialEntry<P>>::empty(),
            r.next() == 0,
    {
        Self::new()
    }
}

} // verus!

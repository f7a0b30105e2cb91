use rendering_engine::render::pipeline::PipelineStateId;
use rendering_engine::resources::material::{MaterialId, MaterialManager};
use rendering_engine::resources::shader::ShaderId;
use rendering_engine::resources::texture::TextureId;

#[test]
fn material_texture_setters_update_fields() {
    let mut manager: MaterialManager<u32> = MaterialManager::new();
    let material = manager.create_material(ShaderId(1), PipelineStateId(7));

    let normal = TextureId(10);
    let mr = TextureId(11);
    let ao = TextureId(12);
    let emissive = TextureId(13);

    assert!(manager.set_normal_texture(material, Some(normal)));
    assert!(manager.set_metallic_roughness_texture(material, Some(mr)));
    assert!(manager.set_ao_texture(material, Some(ao)));
    assert!(manager.set_emissive_texture(material, Some(emissive)));

    let entry = manager.get(material).unwrap();
    assert_eq!(entry.normal_texture_id, Some(normal));
    assert_eq!(entry.metallic_roughness_texture_id, Some(mr));
    assert_eq!(entry.ao_texture_id, Some(ao));
    assert_eq!(entry.emissive_texture_id, Some(emissive));
}

#[test]
fn material_ids_are_sequential_and_fresh() {
    let mut manager: MaterialManager<u32> = MaterialManager::new();
    let a = manager.create_material(ShaderId(1), PipelineStateId(7));
    let b = manager.create_material_with_texture(ShaderId(2), PipelineStateId(8), Some(TextureId(3)));
    assert_eq!(a, MaterialId(0));
    assert_eq!(b, MaterialId(1));
    let eb = manager.get(b).unwrap();
    assert_eq!(eb.shader_id, ShaderId(2));
    assert_eq!(eb.pipeline_id, PipelineStateId(8));
    assert_eq!(eb.texture_id, Some(TextureId(3)));
    assert_eq!(eb.normal_texture_id, None);
    assert_eq!(eb.properties, 0);
}

#[test]
fn setters_on_unknown_material_fail() {
    let mut manager: MaterialManager<u32> = MaterialManager::new();
    assert!(!manager.set_texture(MaterialId(3), Some(TextureId(1))));
    assert!(!manager.set_properties(MaterialId(3), 5));
    assert!(manager.get(MaterialId(3)).is_none());
}

#[test]
fn full_material_and_properties() {
    let mut manager: MaterialManager<u32> = MaterialManager::default();
    let m = manager.create_material_full(
        ShaderId(4),
        PipelineStateId(9),
        Some(TextureId(1)),
        Some(TextureId(2)),
        Some(TextureId(3)),
        None,
        42,
    );
    assert!(manager.set_properties(m, 43));
    assert!(manager.set_texture(m, None));
    let e = manager.get(m).unwrap();
    assert_eq!(e.properties, 43);
    assert_eq!(e.texture_id, None);
    assert_eq!(e.normal_texture_id, Some(TextureId(2)));
    assert_eq!(e.metallic_roughness_texture_id, Some(TextureId(3)));
    assert_eq!(e.ao_texture_id, None);
    assert_eq!(e.emissive_texture_id, None);
}

#[test]
fn next_ids_track_creation() {
    let mut manager: MaterialManager<u32> = MaterialManager::new();
    assert_eq!(manager.next_id(), MaterialId(0));
    manager.create_material(ShaderId(0), PipelineStateId(0));
    assert_eq!(manager.next_id(), MaterialId(1));
}

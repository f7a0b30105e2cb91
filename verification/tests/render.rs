use rendering_engine::render::lighting::{LightId, LightManager, LightType, MAX_LIGHTS};
use rendering_engine::render::pipeline::PipelineStateId;
use rendering_engine::render::renderer::{
    command_byte_offset, draw_command, group_runs, pipeline_runs, select_visible, sort_draws_by_pipeline,
    transform_region, uploaded_command_count, DrawElementsIndirectCommand, MdiStrategy, MeshDrawInfo, MeshId,
    RendererConfig, INDIRECT_COMMAND_STRIDE, MAX_INDIRECT_COMMANDS,
};
use rendering_engine::render::scene::{ObjectHandle, ObjectKind, Scene};
use rendering_engine::render::skybox::SkyboxId;
use rendering_engine::resources::material::MaterialId;

fn cmd(n: u32) -> DrawElementsIndirectCommand {
    DrawElementsIndirectCommand { count: n, instance_count: 1, first_index: 0, base_vertex: 0, base_instance: n }
}

#[test]
fn renderer_config_defaults_and_sizes() {
    let c = RendererConfig::default();
    assert_eq!(c.max_objects, 65536);
    assert_eq!(c.transform_regions, 3);
    assert_eq!(c.indirect_command_capacity, 4096);
    assert_eq!(c.initial_draw_batch_capacity, 1024);
    assert_eq!(c.effective_sizes(), (65536, 3));
    let z = RendererConfig { max_objects: 0, transform_regions: 0, ..c };
    assert_eq!(z.effective_sizes(), (1, 1));
    assert_eq!(MdiStrategy::default(), MdiStrategy::Multi);
    assert_eq!(SkyboxId(3), SkyboxId(3));
}

#[test]
fn transform_regions_cycle() {
    assert_eq!(transform_region(0, 3, 100), (0, 0, 100));
    assert_eq!(transform_region(4, 3, 100), (1, 100, 200));
    assert_eq!(transform_region(u64::MAX, 3, 10), (0, 0, 10));
}

#[test]
fn indirect_counts_and_offsets() {
    assert_eq!(uploaded_command_count(10, MAX_INDIRECT_COMMANDS), 10);
    assert_eq!(uploaded_command_count(5000, MAX_INDIRECT_COMMANDS), 4096);
    assert_eq!(INDIRECT_COMMAND_STRIDE, std::mem::size_of::<[u32; 5]>());
    assert_eq!(command_byte_offset(0, 3), 60);
    assert_eq!(command_byte_offset(40, 1), 60);
}

#[test]
fn select_visible_caps_at_capacity() {
    let vis = vec![true, false, true, true, false, true];
    assert_eq!(select_visible(&vis, 10), (vec![0, 2, 3, 5], false));
    assert_eq!(select_visible(&vis, 2), (vec![0, 2], true));
    assert_eq!(select_visible(&vis, 4), (vec![0, 2, 3, 5], false));
    assert_eq!(select_visible(&vis, 3), (vec![0, 2, 3], true));
    assert_eq!(select_visible(&vis, 0), (vec![], true));
    assert_eq!(select_visible(&vec![], 0), (vec![], false));
    assert_eq!(select_visible(&vec![true, true, false], 2), (vec![0, 1], true));
}

#[test]
fn runs_group_equal_keys() {
    let keys = vec![
        (MaterialId(1), MeshId(1)),
        (MaterialId(1), MeshId(1)),
        (MaterialId(1), MeshId(2)),
        (MaterialId(2), MeshId(2)),
        (MaterialId(2), MeshId(2)),
        (MaterialId(2), MeshId(2)),
    ];
    assert_eq!(group_runs(&keys), vec![(0, 2), (2, 3), (3, 6)]);
    assert!(group_runs(&vec![]).is_empty());
}

#[test]
fn draw_command_fields() {
    let mesh = MeshDrawInfo { index_count: 36, first_index: 120, base_vertex: 40 };
    let c = draw_command(mesh, 3, 7, 1000);
    assert_eq!(
        c,
        DrawElementsIndirectCommand { count: 36, instance_count: 4, first_index: 120, base_vertex: 40, base_instance: 1003 }
    );
}

#[test]
fn draws_sort_and_split_by_pipeline() {
    let mut draws = vec![
        (PipelineStateId(9), cmd(1)),
        (PipelineStateId(2), cmd(2)),
        (PipelineStateId(9), cmd(3)),
        (PipelineStateId(2), cmd(4)),
        (PipelineStateId(5), cmd(5)),
    ];
    sort_draws_by_pipeline(&mut draws);
    let ids: Vec<u64> = draws.iter().map(|d| d.0 .0).collect();
    assert_eq!(ids, vec![2, 2, 5, 9, 9]);
    let mut counts: Vec<u32> = draws.iter().map(|d| d.1.count).collect();
    counts.sort();
    assert_eq!(counts, vec![1, 2, 3, 4, 5]);
    assert_eq!(pipeline_runs(&draws), vec![(0, 2), (2, 3), (3, 5)]);
}

#[test]
fn lights_get_fresh_ids_and_leave_cleanly() {
    let mut m: LightManager<&str> = LightManager::new();
    assert_eq!(m.next_id(), LightId(0));
    let sun = m.add("sun");
    let lamp = m.add("lamp");
    let spot = m.add("spot");
    assert_eq!((sun, lamp, spot), (LightId(0), LightId(1), LightId(2)));
    assert_eq!(m.active_lights().clone(), vec![sun, lamp, spot]);
    m.remove(lamp);
    assert_eq!(m.active_lights().clone(), vec![sun, spot]);
    assert!(m.get(lamp).is_none());
    assert_eq!(m.get(spot), Some(&"spot"));
    m.remove(lamp);
    assert_eq!(m.active_light_count(), 2);
    if let Some(l) = m.get_mut(sun) {
        *l = "moon";
    }
    assert_eq!(m.get(sun), Some(&"moon"));
    assert_eq!(m.add("again"), LightId(3));
}

#[test]
fn only_max_lights_reach_the_shader() {
    let mut m: LightManager<u32> = LightManager::new();
    for i in 0..20u32 {
        m.add(i);
    }
    assert_eq!(m.active_light_count(), MAX_LIGHTS);
    let ids = m.shader_lights();
    assert_eq!(ids.len(), 16);
    assert_eq!(ids[0], LightId(0));
    assert_eq!(ids[15], LightId(15));
    assert_eq!(LightType::Directional.gpu_code(), 0);
    assert_eq!(LightType::Point.gpu_code(), 1);
    assert_eq!(LightType::Spot.gpu_code(), 2);
}

#[test]
fn scene_tracks_dynamic_and_moved_objects() {
    let mut s: Scene<u32> = Scene::new();
    assert!(s.is_empty());
    let a = s.add_object(MeshId(1), MaterialId(2), ObjectKind::Static, 10);
    let b = s.add_object(MeshId(1), MaterialId(1), ObjectKind::Dynamic, 20);
    let c = s.add_object(MeshId(0), MaterialId(2), ObjectKind::Static, 30);
    assert_eq!((a, b, c), (ObjectHandle(0), ObjectHandle(1), ObjectHandle(2)));
    assert_eq!(s.len(), 3);
    assert!(s.is_scene_dirty());
    assert!(s.is_grid_dirty());

    let dirty = s.take_dirty();
    assert_eq!(dirty, vec![b]);
    assert!(s.mark_moved(a));
    assert!(s.is_grid_dirty());
    assert!(s.mark_moved(b));
    let dirty = s.take_dirty();
    assert_eq!(dirty, vec![b, a]);
    assert_eq!(s.take_dirty(), vec![b]);

    let order = s.draw_order().clone();
    assert_eq!(order, vec![b, c, a]);
    assert!(!s.is_scene_dirty());

    if let Some(d) = s.get_data_mut(c) {
        *d = 31;
    }
    assert_eq!(s.get(c).unwrap().data, 31);
    assert_eq!(s.get(c).unwrap().kind, ObjectKind::Static);

    s.remove_object(b);
    assert!(s.is_scene_dirty());
    assert_eq!(s.len(), 2);
    assert!(s.take_dirty().is_empty());
    assert_eq!(s.draw_order().clone(), vec![c, a]);
    assert!(!s.mark_moved(b));
    s.mark_grid_clean();
    assert!(!s.is_grid_dirty());
    let mut hs = s.handles();
    hs.sort_by_key(|h| h.0);
    assert_eq!(hs, vec![a, c]);
}

#[test]
fn adding_then_removing_restores_lights_and_objects() {
    let mut m: LightManager<u8> = LightManager::new();
    let a = m.add(1);
    let before: Vec<LightId> = m.active_lights().clone();
    let b = m.add(2);
    m.remove(b);
    assert_eq!(m.active_lights().clone(), before);
    assert_eq!(m.get(a), Some(&1));
    assert!(m.get(b).is_none());

    let mut s: Scene<u8> = Scene::new();
    let x = s.add_object(MeshId(0), MaterialId(0), ObjectKind::Static, 1);
    assert_eq!(s.next_handle(), ObjectHandle(1));
    let y = s.add_object(MeshId(0), MaterialId(0), ObjectKind::Dynamic, 2);
    s.remove_object(y);
    assert_eq!(s.len(), 1);
    assert_eq!(s.get(x).unwrap().data, 1);
    assert!(s.take_dirty().is_empty());
}

use rendering_engine::resources::geometry_pool::{GeometryPool, MAX_POOL_INDICES, MAX_POOL_VERTICES};
use rendering_engine::resources::shader::{ShaderId, ShaderManager};

#[test]
fn pool_uploads_and_frees() {
    let mut pool = GeometryPool::new();
    assert_eq!(pool.free_vertex_space(), MAX_POOL_VERTICES);
    assert_eq!(pool.free_index_space(), MAX_POOL_INDICES);
    let a = pool.upload(100, 300).unwrap();
    assert_eq!(a.base_vertex, 0);
    assert_eq!(a.first_index, 0);
    assert_eq!(a.index_count, 300);
    let b = pool.upload(10, 30).unwrap();
    assert_eq!(b.base_vertex, 100);
    assert_eq!(b.first_index, 300);
    assert_eq!(pool.free_vertex_space(), MAX_POOL_VERTICES - 110);
    pool.free(a);
    assert_eq!(pool.free_vertex_space(), MAX_POOL_VERTICES - 10);
    assert_eq!(pool.largest_free_vertex_block(), MAX_POOL_VERTICES - 110);
    pool.free(b);
    assert_eq!(pool.largest_free_index_block(), MAX_POOL_INDICES);
}

#[test]
fn failed_index_upload_rolls_back_vertices() {
    let mut pool = GeometryPool::new();
    assert!(pool.upload(10, MAX_POOL_INDICES + 1).is_none());
    assert_eq!(pool.free_vertex_space(), MAX_POOL_VERTICES);
    assert_eq!(pool.largest_free_vertex_block(), MAX_POOL_VERTICES);
    assert_eq!(pool.largest_free_index_block(), MAX_POOL_INDICES);
    assert!(pool.upload(MAX_POOL_VERTICES + 1, 3).is_none());
    assert_eq!(pool.free_index_space(), MAX_POOL_INDICES);
}

#[test]
fn shader_ids_are_sequential() {
    let mut m: ShaderManager<&str> = ShaderManager::new();
    let a = m.load_shader("a");
    let r = m.reserve_id();
    m.insert(r, "b");
    assert_eq!(a, ShaderId(0));
    assert_eq!(r, ShaderId(1));
    assert_eq!(m.get(r), Some(&"b"));
    assert_eq!(m.get(ShaderId(7)), None);
}

#[test]
fn only_handed_out_ranges_are_releasable() {
    let mut pool = GeometryPool::new();
    let a = pool.upload(8, 12).unwrap();
    assert!(pool.is_releasable(a));
    pool.free(a);
    assert!(!pool.is_releasable(a));
    let empty = pool.upload(0, 0).unwrap();
    assert!(pool.is_releasable(empty));
}

use rendering_engine::resources::shader_files::{plan_shader_programs, ShaderDirEntry, ShaderSources};

fn entry(name: &str, is_file: bool) -> ShaderDirEntry {
    ShaderDirEntry { name: name.as_bytes().to_vec(), is_file }
}

#[test]
fn shader_directory_pairs_stages_by_name() {
    let entries = vec![
        entry("lit.frag", true),
        entry("lit.vert", true),
        entry("ui.vert", true),
        entry("ui.geom", true),
        entry("ui.frag", true),
        entry("lonely.vert", true),
        entry(".vert", true),
        entry("a.b.vert", true),
        entry("a.b.frag", true),
        entry("sub.vert", false),
        entry("odd.vert", true),
        entry("odd.frag", false),
    ];
    let plan = plan_shader_programs(&entries);
    assert_eq!(
        plan,
        vec![
            ShaderSources { vertex: 1, fragment: Some(0), geometry: None },
            ShaderSources { vertex: 2, fragment: Some(4), geometry: Some(3) },
            ShaderSources { vertex: 5, fragment: None, geometry: None },
            ShaderSources { vertex: 7, fragment: Some(8), geometry: None },
            ShaderSources { vertex: 10, fragment: None, geometry: None },
        ]
    );
}

#[test]
fn vertex_names_follow_path_extension_rules() {
    let names = ["x.vert", ".vert", "x.vert.bak", "vert", "a.", "x..vert", "x.VERT"];
    for n in names {
        let by_path = std::path::Path::new(n).extension().map(|e| e == "vert").unwrap_or(false);
        let plan = plan_shader_programs(&vec![entry(n, true)]);
        assert_eq!(plan.len() == 1, by_path, "{n}");
    }
}

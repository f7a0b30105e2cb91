use rendering_engine::resources::texture::{atlas_tile, TextureFilter, TextureFormat, TextureId, TextureManager};

fn uv_rect(grid: (u32, u32), tile_x: u32, tile_y: u32) -> [f32; 4] {
    let (cols, rows, x, y) = atlas_tile(grid, tile_x, tile_y);
    [
        x as f32 / cols as f32,
        y as f32 / rows as f32,
        (x + 1) as f32 / cols as f32,
        (y + 1) as f32 / rows as f32,
    ]
}

#[test]
fn atlas_uv_rect_clamps_to_valid_tile_range() {
    assert_eq!(uv_rect((2, 2), 99, 99), [0.5, 0.5, 1.0, 1.0]);
    assert_eq!(uv_rect((2, 2), 0, 0), [0.0, 0.0, 0.5, 0.5]);
}

#[test]
fn atlas_tile_zero_grid_counts_as_one() {
    assert_eq!(atlas_tile((0, 0), 5, 5), (1, 1, 0, 0));
    assert_eq!(atlas_tile((4, 3), 2, 7), (4, 3, 2, 2));
}

#[test]
fn texture_manager_default_is_empty() {
    let manager: TextureManager<u32> = TextureManager::default();
    assert!(manager.is_empty());
    assert_eq!(manager.next_id(), TextureId(0));
}

#[test]
fn texture_manager_register_get_remove() {
    let mut manager: TextureManager<&str> = TextureManager::new();
    let a = manager.register("a");
    let b = manager.register("b");
    assert_eq!(a, TextureId(0));
    assert_eq!(b, TextureId(1));
    assert_eq!(manager.len(), 2);
    assert_eq!(manager.get(a), Some(&"a"));
    assert_eq!(manager.remove(a), Some("a"));
    assert_eq!(manager.remove(a), None);
    assert_eq!(manager.get(a), None);
    let c = manager.register("c");
    assert_eq!(c, TextureId(2));
    assert_eq!(manager.len(), 2);
}

#[test]
fn texture_format_tables_match_gl() {
    assert_eq!(TextureFormat::Rgba8Linear.internal_format(), glow::RGBA8 as i32);
    assert_eq!(TextureFormat::Rgba8Linear.pixel_format(), glow::RGBA);
    assert_eq!(TextureFormat::Rgba8Linear.pixel_type(), glow::UNSIGNED_BYTE);
    assert!(!TextureFormat::Rgba8Linear.is_compressed());
    assert_eq!(TextureFormat::Depth32F.pixel_format(), glow::DEPTH_COMPONENT);
    assert_eq!(TextureFormat::Depth32F.pixel_type(), glow::FLOAT);
    assert_eq!(TextureFormat::Rgba16F.pixel_type(), glow::HALF_FLOAT);
    assert_eq!(TextureFormat::Rgba8Srgb.internal_format(), glow::SRGB8_ALPHA8 as i32);
    assert_eq!(TextureFormat::BC4Linear.internal_format(), glow::COMPRESSED_RED_RGTC1 as i32);
    assert_eq!(TextureFormat::BC5Linear.internal_format(), glow::COMPRESSED_RG_RGTC2 as i32);
    assert!(TextureFormat::BC1Srgb.is_compressed());
    assert_eq!(TextureFilter::Nearest.to_glow(), glow::NEAREST as i32);
    assert_eq!(TextureFilter::LinearMipmapLinear.to_glow(), glow::LINEAR_MIPMAP_LINEAR as i32);
    assert_eq!(TextureFilter::LinearMipmapLinear.mag_filter(), glow::LINEAR as i32);
    assert!(TextureFilter::NearestMipmapNearest.uses_mipmaps());
    assert!(!TextureFilter::Linear.uses_mipmaps());
}

use std::collections::hash_map::DefaultHasher;
use std::hash::{Hash, Hasher};

use rendering_engine::gl;
use rendering_engine::render::pipeline::{
    BlendFactor, CullMode, DepthFunc, PipelineCache, PipelineState, PipelineStateId,
};

fn std_hash(s: &PipelineState) -> u64 {
    let mut hasher = DefaultHasher::new();
    s.shader_id.hash(&mut hasher);
    s.cull_mode.hash(&mut hasher);
    s.depth_test.hash(&mut hasher);
    s.depth_write.hash(&mut hasher);
    s.depth_func.hash(&mut hasher);
    s.blend_enabled.hash(&mut hasher);
    s.src_factor.hash(&mut hasher);
    s.dst_factor.hash(&mut hasher);
    hasher.finish()
}

#[test]
fn pipeline_hash_matches_field_by_field_std_hash() {
    let a = PipelineState::default_opaque(3);
    let b = PipelineState::default_alpha(3);
    assert_eq!(a.hash(), std_hash(&a));
    assert_eq!(b.hash(), std_hash(&b));
    let c = PipelineState {
        shader_id: 0xdead_beef,
        cull_mode: CullMode::Front,
        depth_test: false,
        depth_write: true,
        depth_func: DepthFunc::GreaterOrEqual,
        blend_enabled: true,
        src_factor: BlendFactor::DstAlpha,
        dst_factor: BlendFactor::OneMinusDstColor,
    };
    assert_eq!(c.hash(), std_hash(&c));
    assert_ne!(a.hash(), b.hash());
}

#[test]
fn default_states() {
    let a = PipelineState::default_opaque(5);
    assert_eq!(a.shader_id, 5);
    assert_eq!(a.cull_mode, CullMode::Back);
    assert!(a.depth_test && a.depth_write && !a.blend_enabled);
    assert_eq!(a.depth_func, DepthFunc::Less);
    let b = PipelineState::default_alpha(5);
    assert_eq!(b.cull_mode, CullMode::Disabled);
    assert!(b.depth_test && !b.depth_write && b.blend_enabled);
    assert_eq!(b.src_factor, BlendFactor::SrcAlpha);
    assert_eq!(b.dst_factor, BlendFactor::OneMinusSrcAlpha);
}

#[test]
fn cache_register_is_idempotent_and_found() {
    let mut cache = PipelineCache::new();
    let s = PipelineState::default_opaque(1);
    let id = cache.register(s);
    assert_eq!(id, PipelineStateId(s.hash()));
    let again = cache.register(s);
    assert_eq!(again, id);
    assert_eq!(cache.get_by_id(id), Some(&s));
    assert_eq!(cache.get(id.0), Some(&s));
    let other = PipelineState::default_alpha(1);
    assert!(cache.get_by_id(PipelineStateId(other.hash())).is_none());
    let d: PipelineCache = PipelineCache::default();
    assert!(d.get(id.0).is_none());
}

#[test]
fn gl_tables_match_glow() {
    assert_eq!(DepthFunc::Never.to_glow(), glow::NEVER);
    assert_eq!(DepthFunc::LessOrEqual.to_glow(), glow::LEQUAL);
    assert_eq!(DepthFunc::Always.to_glow(), glow::ALWAYS);
    assert_eq!(BlendFactor::Zero.to_glow(), glow::ZERO);
    assert_eq!(BlendFactor::OneMinusSrcAlpha.to_glow(), glow::ONE_MINUS_SRC_ALPHA);
    assert_eq!(BlendFactor::DstColor.to_glow(), glow::DST_COLOR);
    assert_eq!(gl::NEVER, glow::NEVER);
    assert_eq!(gl::LESS, glow::LESS);
    assert_eq!(gl::EQUAL, glow::EQUAL);
    assert_eq!(gl::LEQUAL, glow::LEQUAL);
    assert_eq!(gl::GREATER, glow::GREATER);
    assert_eq!(gl::NOTEQUAL, glow::NOTEQUAL);
    assert_eq!(gl::GEQUAL, glow::GEQUAL);
    assert_eq!(gl::ALWAYS, glow::ALWAYS);
    assert_eq!(gl::ZERO, glow::ZERO);
    assert_eq!(gl::ONE, glow::ONE);
    assert_eq!(gl::SRC_COLOR, glow::SRC_COLOR);
    assert_eq!(gl::ONE_MINUS_SRC_COLOR, glow::ONE_MINUS_SRC_COLOR);
    assert_eq!(gl::SRC_ALPHA, glow::SRC_ALPHA);
    assert_eq!(gl::ONE_MINUS_SRC_ALPHA, glow::ONE_MINUS_SRC_ALPHA);
    assert_eq!(gl::DST_ALPHA, glow::DST_ALPHA);
    assert_eq!(gl::ONE_MINUS_DST_ALPHA, glow::ONE_MINUS_DST_ALPHA);
    assert_eq!(gl::DST_COLOR, glow::DST_COLOR);
    assert_eq!(gl::ONE_MINUS_DST_COLOR, glow::ONE_MINUS_DST_COLOR);
    assert_eq!(gl::COLOR_BUFFER_BIT, glow::COLOR_BUFFER_BIT);
    assert_eq!(gl::DEPTH_BUFFER_BIT, glow::DEPTH_BUFFER_BIT);
    assert_eq!(gl::STENCIL_BUFFER_BIT, glow::STENCIL_BUFFER_BIT);
    assert_eq!(gl::RGBA8, glow::RGBA8);
    assert_eq!(gl::SRGB8_ALPHA8, glow::SRGB8_ALPHA8);
    assert_eq!(gl::RGBA16F, glow::RGBA16F);
    assert_eq!(gl::DEPTH_COMPONENT32F, glow::DEPTH_COMPONENT32F);
    assert_eq!(gl::COMPRESSED_SRGB_ALPHA_S3TC_DXT1_EXT, glow::COMPRESSED_SRGB_ALPHA_S3TC_DXT1_EXT);
    assert_eq!(gl::COMPRESSED_RED_RGTC1, glow::COMPRESSED_RED_RGTC1);
    assert_eq!(gl::COMPRESSED_RG_RGTC2, glow::COMPRESSED_RG_RGTC2);
    assert_eq!(gl::RGBA, glow::RGBA);
    assert_eq!(gl::DEPTH_COMPONENT, glow::DEPTH_COMPONENT);
    assert_eq!(gl::UNSIGNED_BYTE, glow::UNSIGNED_BYTE);
    assert_eq!(gl::UNSIGNED_INT, glow::UNSIGNED_INT);
    assert_eq!(gl::HALF_FLOAT, glow::HALF_FLOAT);
    assert_eq!(gl::FLOAT, glow::FLOAT);
    assert_eq!(gl::NEAREST, glow::NEAREST);
    assert_eq!(gl::LINEAR, glow::LINEAR);
    assert_eq!(gl::NEAREST_MIPMAP_NEAREST, glow::NEAREST_MIPMAP_NEAREST);
    assert_eq!(gl::LINEAR_MIPMAP_LINEAR, glow::LINEAR_MIPMAP_LINEAR);
    assert_eq!(gl::TRIANGLES, glow::TRIANGLES);
}

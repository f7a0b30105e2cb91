//! Texture formats, filters, atlas tiles and the texture registry.
use vstd::prelude::*;
use std::collections::HashMap;
use crate::gl;

verus! {

/// The texture filters with the GL filter of the same name.
pub open spec fn filter_names() -> Seq<(TextureFilter, u32)> {
    seq![
        (TextureFilter::Nearest, gl::NEAREST),
        (TextureFilter::Linear, gl::LINEAR),
        (TextureFilter::NearestMipmapNearest, gl::NEAREST_MIPMAP_NEAREST),
        (TextureFilter::LinearMipmapLinear, gl::LINEAR_MIPMAP_LINEAR),
    ]
}

/// Each filter minifies with the GL filter of its own name, no two filters
/// share a GL value, and a filter without mipmaps minifies the way it
/// magnifies (nearest stays nearest, linear stays linear).
pub proof fn law_filters_map_to_their_gl_names(a: TextureFilter, b: TextureFilter)
    ensures
        forall|i: int|
            0 <= i < 4 ==> (#[trigger] filter_names()[i]).0.spec_min_filter() == filter_names()[i].1 as i32,
        a.spec_min_filter() == b.spec_min_filter() ==> a == b,
        (a == TextureFilter::Nearest || a == TextureFilter::Linear) ==> a.spec_min_filter()
            == a.spec_mag_filter(),
        a.spec_mag_filter() == gl::NEAREST as i32 || a.spec_mag_filter() == gl::LINEAR as i32,
{
}

/// Handle of a registered texture.
#[derive(Debug, Clone, Copy, PartialEq, Eq, PartialOrd, Ord, Hash, Structural)]
pub struct TextureId(pub u32);

/// Texture format, with colour space.
#[derive(Debug, Clone, Copy, PartialEq, Eq, Structural)]
pub enum TextureFormat {
    /// 8-bit RGBA, linear.
    Rgba8Linear,
    /// 8-bit RGBA, sRGB.
    Rgba8Srgb,
    /// 16-bit float RGBA, linear.
    Rgba16F,
    /// Depth.
    Depth32F,
    /// BC1 (DXT1), sRGB.
    BC1Srgb,
    /// BC4, one channel, linear.
    BC4Linear,
    /// BC5, normal maps, linear.
    BC5Linear,
}

impl TextureFormat {
    /// GL internal format.
    pub open spec fn spec_internal_format(self) -> i32 {
        match self {
            TextureFormat::Rgba8Linear => gl::RGBA8 as i32,
            TextureFormat::Rgba8Srgb => gl::SRGB8_ALPHA8 as i32,
            TextureFormat::Rgba16F => gl::RGBA16F as i32,
            TextureFormat::Depth32F => gl::DEPTH_COMPONENT32F as i32,
            TextureFormat::BC1Srgb => gl::COMPRESSED_SRGB_ALPHA_S3TC_DXT1_EXT as i32,
            TextureFormat::BC4Linear => gl::COMPRESSED_RED_RGTC1 as i32,
            TextureFormat::BC5Linear => gl::COMPRESSED_RG_RGTC2 as i32,
        }
    }

    /// GL pixel format (the compressed formats report RGBA; it is unused).
    pub open spec fn spec_pixel_format(self) -> u32 {
        match self {
            TextureFormat::Depth32F => gl::DEPTH_COMPONENT,
            _ => gl::RGBA,
        }
    }

    /// GL pixel data type (0 for the compressed formats).
    pub open spec fn spec_pixel_type(self) -> u32 {
        match self {
            TextureFormat::Rgba8Linear | TextureFormat::Rgba8Srgb => gl::UNSIGNED_BYTE,
            TextureFormat::Rgba16F => gl::HALF_FLOAT,
            TextureFormat::Depth32F => gl::FLOAT,
            _ => 0,
        }
    }

    /// Whether the format is block-compressed.
    pub open spec fn compressed(self) -> bool {
        match self {
            TextureFormat::BC1Srgb | TextureFormat::BC4Linear | TextureFormat::BC5Linear => true,
            _ => false,
        }
    }

    /// GL internal format.
    pub fn internal_format(&self) -> (r: i32)
        ensures
            r == self.spec_internal_format(),
    {
        match self {
            TextureFormat::Rgba8Linear => gl::RGBA8 as i32,
            TextureFormat::Rgba8Srgb => gl::SRGB8_ALPHA8 as i32,
            TextureFormat::Rgba16F => gl::RGBA16F as i32,
            TextureFormat::Depth32F => gl::DEPTH_COMPONENT32F as i32,
            TextureFormat::BC1Srgb => gl::COMPRESSED_SRGB_ALPHA_S3TC_DXT1_EXT as i32,
            TextureFormat::BC4Linear => gl::COMPRESSED_RED_RGTC1 as i32,
            TextureFormat::BC5Linear => gl::COMPRESSED_RG_RGTC2 as i32,
        }
    }

    /// GL pixel format.
    pub fn pixel_format(&self) -> (r: u32)
        ensures
            r == self.spec_pixel_format(),
    {
        match self {
            TextureFormat::Rgba8Linear | TextureFormat::Rgba8Srgb | TextureFormat::Rgba16F => {
                gl::RGBA
            },
            TextureFormat::Depth32F => gl::DEPTH_COMPONENT,
            TextureFormat::BC1Srgb | TextureFormat::BC4Linear | TextureFormat::BC5Linear => {
                gl::RGBA
            },
        }
    }

    /// GL pixel data type.
    pub fn pixel_type(&self) -> (r: u32)
        ensures
            r == self.spec_pixel_type(),
    {
        match self {
            TextureFormat::Rgba8Linear | TextureFormat::Rgba8Srgb => gl::UNSIGNED_BYTE,
            TextureFormat::Rgba16F => gl::HALF_FLOAT,
            TextureFormat::Depth32F => gl::FLOAT,
            TextureFormat::BC1Srgb | TextureFormat::BC4Linear | TextureFormat::BC5Linear => 0,
        }
    }

    /// Whether the format is block-compressed.
    pub fn is_compressed(&self) -> (r: bool)
        ensures
            r == self.compressed(),
    {
        match self {
            TextureFormat::BC1Srgb | TextureFormat::BC4Linear | TextureFormat::BC5Linear => true,
            _ => false,
        }
    }
}

/// Texture sampling filter.
#[derive(Debug, Clone, Copy, PartialEq, Eq, Structural)]
pub enum TextureFilter {
    Nearest,
    Linear,
    NearestMipmapNearest,
    LinearMipmapLinear,
}

impl TextureFilter {
    /// GL minification filter.
    pub open spec fn spec_min_filter(self) -> i32 {
        match self {
            TextureFilter::Nearest => gl::NEAREST as i32,
            TextureFilter::Linear => gl::LINEAR as i32,
            TextureFilter::NearestMipmapNearest => gl::NEAREST_MIPMAP_NEAREST as i32,
            TextureFilter::LinearMipmapLinear => gl::LINEAR_MIPMAP_LINEAR as i32,
        }
    }

    /// GL minification filter.
    pub fn to_glow(&self) -> (r: i32)
        ensures
            r == self.spec_min_filter(),
    {
        match self {
            TextureFilter::Nearest => gl::NEAREST as i32,
            TextureFilter::Linear => gl::LINEAR as i32,
            TextureFilter::NearestMipmapNearest => gl::NEAREST_MIPMAP_NEAREST as i32,
            TextureFilter::LinearMipmapLinear => gl::LINEAR_MIPMAP_LINEAR as i32,
        }
    }

    /// GL magnification filter: nearest for the nearest filters, linear
    /// otherwise.
    pub open spec fn spec_mag_filter(self) -> i32 {
        match self {
            TextureFilter::Nearest | TextureFilter::NearestMipmapNearest => gl::NEAREST as i32,
            _ => gl::LINEAR as i32,
        }
    }

    /// GL magnification filter: nearest for the nearest filters, linear
    /// otherwise.
    pub fn mag_filter(&self) -> (r: i32)
        ensures
            r == (match self {
                TextureFilter::Nearest | TextureFilter::NearestMipmapNearest => gl::NEAREST as i32,
                _ => gl::LINEAR as i32,
            }),
            r == self.spec_mag_filter(),
    {
        match self {
            TextureFilter::Nearest | TextureFilter::NearestMipmapNearest => gl::NEAREST as i32,
            _ => gl::LINEAR as i32,
        }
    }

    /// Whether the filter samples mipmaps, so they have to be generated.
    pub fn uses_mipmaps(&self) -> (r: bool)
        ensures
            r == (match self {
                TextureFilter::NearestMipmapNearest | TextureFilter::LinearMipmapLinear => true,
                _ => false,
            }),
    {
        match self {
            TextureFilter::NearestMipmapNearest | TextureFilter::LinearMipmapLinear => true,
            _ => false,
        }
    }
}

/// The cell of a `grid.0` x `grid.1` atlas that tile `(tile_x, tile_y)`
/// maps to: a zero dimension counts as one, and the tile is clamped into the
/// grid. Returns `(cols, rows, x, y)`; the tile's UV rectangle is
/// `[x / cols, y / rows, (x + 1) / cols, (y + 1) / rows]`.
pub fn atlas_tile(grid: (u32, u32), tile_x: u32, tile_y: u32) -> (r: (u32, u32, u32, u32))
    ensures
        r.0 == (if grid.0 == 0 { 1 } else { grid.0 }),
        r.1 == (if grid.1 == 0 { 1 } else { grid.1 }),
        r.2 == (if tile_x < r.0 { tile_x } else { (r.0 - 1) as u32 }),
        r.3 == (if tile_y < r.1 { tile_y } else { (r.1 - 1) as u32 }),
        r.2 < r.0,
        r.3 < r.1,
{
    let cols = if grid.0 > 1 { grid.0 } else { 1 };
    let rows = if grid.1 > 1 { grid.1 } else { 1 };
    let x = if tile_x < cols - 1 { tile_x } else { cols - 1 };
    let y = if tile_y < rows - 1 { tile_y } else { rows - 1 };
    (cols, rows, x, y)
}

/// Textures by id; ids are handed out in order and never reused.
pub struct TextureManager<T> {
    textures: HashMap<u32, T>,
    next_id: u32,
}

impl<T> TextureManager<T> {
    /// Registered textures by raw id.
    pub closed spec fn textures(&self) -> Map<u32, T> {
        self.textures@
    }

    /// The id the next registration gets.
    pub closed spec fn next(&self) -> u32 {
        self.next_id
    }

    /// Every registered id is below the next one.
    pub open spec fn wf(&self) -> bool {
        forall|k: u32| #[trigger] self.textures().contains_key(k) ==> k < self.next()
    }

    /// An empty registry.
    pub fn new() -> (r: Self)
        ensures
            r.wf(),
            r.textures() == Map::<u32, T>::empty(),
            r.next() == 0,
    {
        Self { textures: HashMap::new(), next_id: 0 }
    }

    /// Adds `texture` under the next id and returns that id.
    pub fn register(&mut self, texture: T) -> (r: TextureId)
        requires
            old(self).wf(),
            old(self).next() < u32::MAX,
        ensures
            final(self).wf(),
            r.0 == old(self).next(),
            final(self).next() == old(self).next() + 1,
            final(self).textures() == old(self).textures().insert(r.0, texture),
            !old(self).textures().contains_key(r.0),
    {
        let id = TextureId(self.next_id);
        self.next_id = self.next_id + 1;
        self.textures.insert(id.0, texture);
        assert forall|k: u32| #[trigger] self.textures().contains_key(k) implies k < self.next() by {
            if k != id.0 {
                assert(old(self).textures().contains_key(k));
            }
        }
        id
    }

    /// How many textures are registered.
    pub fn len(&self) -> (r: usize)
        ensures
            r == self.textures().len(),
    {
        self.textures.len()
    }

    /// Whether no texture is registered.
    pub fn is_empty(&self) -> (r: bool)
        ensures
            r == (self.textures().len() == 0),
    {
        self.textures.len() == 0
    }

    /// The id the next registration gets.
    pub fn next_id(&self) -> (r: TextureId)
        ensures
            r.0 == self.next(),
    {
        TextureId(self.next_id)
    }

    /// The texture registered under `id`.
    pub fn get(&self, id: TextureId) -> (r: Option<&T>)
        ensures
            r == (if self.textures().contains_key(id.0) {
                Some(&self.textures()[id.0])
            } else {
                None
            }),
    {
        self.textures.get(&id.0)
    }

    /// Removes and returns the texture registered under `id`.
    pub fn remove(&mut self, id: TextureId) -> (r: Option<T>)
        requires
            old(self).wf(),
        ensures
            final(self).wf(),
            final(self).next() == old(self).next(),
            final(self).textures() == old(self).textures().remove(id.0),
            r == (if old(self).textures().contains_key(id.0) {
                Some(old(self).textures()[id.0])
            } else {
                None
            }),
    {
        let r = self.textures.remove(&id.0);
        assert forall|k: u32| #[trigger] self.textures().contains_key(k) implies k < self.next() by {
            assert(old(self).textures().contains_key(k));
        }
        r
    }
}

impl<T> Default for TextureManager<T> {
    fn default() -> (r: Self)
        ensures
            r.wf(),
            r.textures() == Map::<u32, T>::empty(),
            r.next() == 0,
    {
        Self::new()
    }
}

/// Ids are never reused: a newly registered id differs from every id
/// registered before.
pub proof fn law_fresh_ids<T>(m: TextureManager<T>, k: u32)
    requires
        m.wf(),
        m.textures().contains_key(k),
    ensures
        k != m.next(),
{
}

} // verus!

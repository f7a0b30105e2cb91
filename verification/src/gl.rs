//! OpenGL enum values used by the pipeline, pass and texture tables.
use vstd::prelude::*;

verus! {

pub const NEVER: u32 = 0x0200;
pub const LESS: u32 = 0x0201;
pub const EQUAL: u32 = 0x0202;
pub const LEQUAL: u32 = 0x0203;
pub const GREATER: u32 = 0x0204;
pub const NOTEQUAL: u32 = 0x0205;
pub const GEQUAL: u32 = 0x0206;
pub const ALWAYS: u32 = 0x0207;

pub const ZERO: u32 = 0;
pub const ONE: u32 = 1;
pub const SRC_COLOR: u32 = 0x0300;
pub const ONE_MINUS_SRC_COLOR: u32 = 0x0301;
pub const SRC_ALPHA: u32 = 0x0302;
pub const ONE_MINUS_SRC_ALPHA: u32 = 0x0303;
pub const DST_ALPHA: u32 = 0x0304;
pub const ONE_MINUS_DST_ALPHA: u32 = 0x0305;
pub const DST_COLOR: u32 = 0x0306;
pub const ONE_MINUS_DST_COLOR: u32 = 0x0307;

pub const COLOR_BUFFER_BIT: u32 = 0x00004000;
pub const DEPTH_BUFFER_BIT: u32 = 0x00000100;
pub const STENCIL_BUFFER_BIT: u32 = 0x00000400;

pub const RGBA8: u32 = 0x8058;
pub const SRGB8_ALPHA8: u32 = 0x8C43;
pub const RGBA16F: u32 = 0x881A;
pub const DEPTH_COMPONENT32F: u32 = 0x8CAC;
pub const COMPRESSED_SRGB_ALPHA_S3TC_DXT1_EXT: u32 = 0x8C4D;
pub const COMPRESSED_RED_RGTC1: u32 = 0x8DBB;
pub const COMPRESSED_RG_RGTC2: u32 = 0x8DBD;
pub const RGBA: u32 = 0x1908;
pub const DEPTH_COMPONENT: u32 = 0x1902;
pub const UNSIGNED_BYTE: u32 = 0x1401;
pub const UNSIGNED_INT: u32 = 0x1405;
pub const HALF_FLOAT: u32 = 0x140B;
pub const FLOAT: u32 = 0x1406;

pub const NEAREST: u32 = 0x2600;
pub const LINEAR: u32 = 0x2601;
pub const NEAREST_MIPMAP_NEAREST: u32 = 0x2700;
pub const LINEAR_MIPMAP_LINEAR: u32 = 0x2703;

pub const TRIANGLES: u32 = 0x0004;

} // verus!

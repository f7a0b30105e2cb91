//! GPU resource bookkeeping: texture formats and handles, materials, shaders, geometry.
pub mod geometry_pool;
pub mod material;
pub mod shader;
pub mod shader_files;
pub mod texture;

//! Render-side state: pipeline states, passes, draw batching, lights and
//! scene object handles.
pub mod lighting;
pub mod pass;
pub mod pipeline;
pub mod renderer;
pub mod scene;
pub mod skybox;

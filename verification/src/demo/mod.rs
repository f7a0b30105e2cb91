//! The demo's own logic: HUD text, touch buttons, chunk streaming on the
//! render thread.
pub mod font;
pub mod streaming;
pub mod touch;
pub mod state;

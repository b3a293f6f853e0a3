//! Rounded-corner border overlay for a display: a pixel compositor that turns
//! a border/shadow configuration into a premultiplied-alpha BGRA framebuffer,
//! and the surface-lifecycle state machine that drives when that compositor
//! runs against a live display-server surface.

pub mod colour;
pub mod config;
pub mod drawing;
pub mod event_loop;
pub mod falloff;
pub mod lifecycle;
pub mod lock;
pub mod registry;
pub mod text;

//! A tag-based tiling window manager core: the authoritative window state,
//! the deterministic master/stack tiler, the hotkey resolver and the event
//! router. All policy decisions live here; the X protocol transport is kept
//! outside and receives its orders as plain action values.

pub mod bar;
pub mod config;
pub mod events;
pub mod keys;
pub mod laws;
pub mod state;

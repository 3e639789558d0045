//! The desktop client's decisions: what it stores, what it offers, what it
//! tells its window, and what its commands do before and after they touch the
//! outside.

pub mod bookmarks;
pub mod commands;
pub mod dto;
pub mod mouse_grab;
pub mod perms;
pub mod settings;
pub mod shortcuts;
pub mod state;

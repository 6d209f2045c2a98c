//! What the window decides: where pages are laid out, how they scroll, and what commands do.

pub mod clipboard;
pub mod command_laws;
pub mod commands;
pub mod dialogs;
pub mod layout;
pub mod layout_laws;
pub mod layout_manager;
pub mod menu;
pub mod player;
pub mod renderable;
pub mod renderer;
pub mod shortcuts;
pub mod static_image;
pub mod window;
pub mod windows;

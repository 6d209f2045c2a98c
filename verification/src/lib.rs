//! The logic of aw-man, an image and manga viewer: natural sorting of file names, page layout and
//! scrolling, moving between pages of archives, scheduling of page work, and the command language
//! of the user interface.

pub mod bignum;
pub mod closing;
pub mod com;
pub mod config;
pub mod decimal;
pub mod double;
pub mod filenames;
pub mod gui;
pub mod logging;
pub mod manager;
pub mod names;
pub mod natsort;
pub mod number;
pub mod path;
pub mod pattern;
pub mod pools;
pub mod socket;
pub mod text;
pub mod unrar;

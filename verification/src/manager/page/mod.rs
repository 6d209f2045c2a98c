//! Pages, from the files that they are extracted to to what is shown of them.

pub mod animation;
pub mod laws;
pub mod page;
pub mod regular_image;
pub mod scanned;
pub mod upscaled_image;
pub mod video;

//! What becomes of the files of pages.

pub mod downscaling;
pub mod extracting;
pub mod gpu;
pub mod loading;
pub mod scanning;
pub mod upscaling;

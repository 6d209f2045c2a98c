//! The values that the window and the page manager exchange.

pub mod action;
pub mod content;
pub mod deduped;
pub mod direction;
pub mod displayable;
pub mod frames;
pub mod image;
pub mod mode;
pub mod one_or_two;
pub mod raw_image;
pub mod res;
pub mod toggle;

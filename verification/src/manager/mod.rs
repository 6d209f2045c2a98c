//! Which pages are open, which one is shown, and what is to be done for them next.

pub mod actions;
pub mod archive;
pub mod contents;
pub mod control;
pub mod current;
pub mod delay;
pub mod extraction;
pub mod files;
pub mod find_next;
pub mod indices;
pub mod laws;
pub mod manager;
pub mod opening;
pub mod page;
pub mod schedule;
pub mod script;
pub mod upkeep;
pub mod work;

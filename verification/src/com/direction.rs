//! Directions of movement.
use vstd::prelude::*;

verus! {

/// Which way to move through pages.
#[derive(Clone, Copy, Debug, PartialEq, Eq, Structural)]
pub enum Direction {
    Absolute,
    Forwards,
    Backwards,
}

} // verus!

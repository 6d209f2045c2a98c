//! Pages being scaled down.
use vstd::prelude::*;

use crate::manager::work::WorkParams;

verus! {

/// A page being scaled down, by what it was started with.
#[derive(Debug)]
pub struct DownscaleFuture {
    pub extra_info: WorkParams,
}

impl DownscaleFuture {
    /// What it was started with.
    pub fn params(&self) -> (r: WorkParams)
        ensures
            r == self.extra_info,
    {
        self.extra_info
    }
}

} // verus!

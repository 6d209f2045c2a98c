//! The work that can be done on a page.
use vstd::prelude::*;

use crate::com::res::TargetRes;

verus! {

/// How some work is to be done.
#[derive(Clone, Copy, Debug, PartialEq, Eq, Structural)]
pub struct WorkParams {
    /// Whether to wait before scaling until the current page is done.
    pub park_before_scale: bool,
    /// Whether to go before other pages that wait to be scaled.
    pub jump_downscaling_queue: bool,
    /// Whether to go before other pages that wait to be extracted.
    pub extract_early: bool,
    pub target_res: TargetRes,
}

/// Which stage of work was completed, whether it was successful or not.
#[derive(Clone, Copy, Debug, PartialEq, Eq, Structural)]
pub enum Completion {
    StartScan,
    Scanned,
    More,
}

/// Work to do on a page. A flag says whether pages are upscaled.
#[derive(Clone, Copy, Debug, PartialEq, Eq, Structural)]
pub enum Work {
    /// Finish extracting, scanning, upscaling, loading and downscaling.
    Finalize(bool, WorkParams),
    /// Finish extracting, scanning, upscaling and loading, and start downscaling.
    Downscale(bool, WorkParams),
    /// Finish extracting, scanning and upscaling, and start loading.
    Load(bool, WorkParams),
    /// Finish extracting and scanning, and start upscaling.
    Upscale,
    /// Finish extracting, and start scanning.
    Scan,
}

impl Work {
    pub open spec fn spec_upscale(self) -> bool {
        match self {
            Work::Finalize(u, _) | Work::Downscale(u, _) | Work::Load(u, _) => u,
            Work::Upscale => true,
            Work::Scan => false,
        }
    }

    pub open spec fn spec_params(self) -> Option<WorkParams> {
        match self {
            Work::Finalize(_, p) | Work::Downscale(_, p) | Work::Load(_, p) => Some(p),
            Work::Upscale | Work::Scan => None,
        }
    }

    pub open spec fn downscales(self) -> bool {
        self is Finalize || self is Downscale
    }

    /// Whether downscaling is to be finished.
    pub fn finalize(&self) -> (r: bool)
        ensures
            r == (self is Finalize),
    {
        match self {
            Work::Finalize(..) => true,
            Work::Downscale(..) | Work::Load(..) | Work::Upscale | Work::Scan => false,
        }
    }

    /// Whether the page is to be loaded.
    pub fn load(&self) -> (r: bool)
        ensures
            r == self.spec_params() is Some,
    {
        match self {
            Work::Finalize(..) | Work::Downscale(..) | Work::Load(..) => true,
            Work::Upscale | Work::Scan => false,
        }
    }

    /// Whether the page is to be upscaled.
    pub fn upscale(&self) -> (r: bool)
        ensures
            r == self.spec_upscale(),
    {
        match self {
            Work::Finalize(u, _) | Work::Downscale(u, _) | Work::Load(u, _) => *u,
            Work::Upscale => true,
            Work::Scan => false,
        }
    }

    /// Whether the page is to be downscaled.
    pub fn downscale(&self) -> (r: bool)
        ensures
            r == self.downscales(),
    {
        match self {
            Work::Finalize(..) | Work::Downscale(..) => true,
            Work::Load(..) | Work::Upscale | Work::Scan => false,
        }
    }

    /// How the page is to be loaded, if it is.
    pub fn params(&self) -> (r: Option<WorkParams>)
        ensures
            r == self.spec_params(),
    {
        match self {
            Work::Finalize(_, p) | Work::Downscale(_, p) | Work::Load(_, p) => Some(*p),
            Work::Upscale | Work::Scan => None,
        }
    }

    /// Whether the page is to go before others that wait to be extracted.
    pub fn extract_early(&self) -> (r: bool)
        ensures
            r == (self.spec_params() matches Some(p) && p.extract_early),
    {
        match self.params() {
            Some(p) => p.extract_early,
            None => false,
        }
    }

    /// Whether the image is worth keeping that is decoded while scanning.
    pub fn load_during_scan(&self) -> (r: bool)
        ensures
            r == !self.spec_upscale(),
    {
        !self.upscale()
    }
}

/// Each stage asks for all that the one before it asks for.
pub proof fn law_stages(upscaling: bool, p: WorkParams)
    ensures
        Work::Finalize(upscaling, p).downscales(),
        Work::Finalize(upscaling, p).spec_params() == Work::Downscale(upscaling, p).spec_params(),
        Work::Downscale(upscaling, p).spec_params() == Work::Load(upscaling, p).spec_params(),
        Work::Finalize(upscaling, p).spec_upscale() == Work::Downscale(
            upscaling,
            p,
        ).spec_upscale(),
        Work::Downscale(upscaling, p).spec_upscale() == Work::Load(upscaling, p).spec_upscale(),
{
}

} // verus!

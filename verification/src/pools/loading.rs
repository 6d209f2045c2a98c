//! What is known of a file once it was looked at, and what becomes of it.
use vstd::prelude::*;

use crate::com::image::Image;
use crate::com::res::Res;
use crate::manager::work::WorkParams;
use crate::pools::upscaling::{is_upscaled, should_upscale};

verus! {

/// An image as it is in its file.
#[derive(Debug)]
pub struct UnscaledImage(pub Image);

impl UnscaledImage {
    /// A copy that shares the pixels.
    pub fn share(&self) -> (r: UnscaledImage)
        ensures
            r == *self,
    {
        UnscaledImage(self.0.share())
    }
}

/// An image, or only its resolution.
#[derive(Debug)]
pub enum ImageOrRes {
    Image(UnscaledImage),
    Res(Res),
}

impl ImageOrRes {
    pub open spec fn spec_res(self) -> Res {
        match self {
            ImageOrRes::Image(i) => i.0.res,
            ImageOrRes::Res(r) => r,
        }
    }

    /// The resolution.
    pub fn res(&self) -> (r: Res)
        ensures
            r == self.spec_res(),
    {
        match self {
            ImageOrRes::Image(i) => i.0.res,
            ImageOrRes::Res(r) => *r,
        }
    }

    /// Whether the page is upscaled in upscaling mode.
    pub fn should_upscale(&self, target: Res, minimum: Option<Res>) -> (r: bool)
        ensures
            r == is_upscaled(self.spec_res(), target, minimum),
    {
        should_upscale(self.res(), target, minimum)
    }

    /// Only the resolution.
    pub open spec fn unloaded(self) -> ImageOrRes {
        ImageOrRes::Res(self.spec_res())
    }
}

/// What a file was found to be.
#[derive(Debug)]
pub enum ScanResult {
    /// An image that was converted to another file, which is there and belongs to the page.
    ConvertedImage(String, ImageOrRes),
    Image(ImageOrRes),
    Animation(Res),
    Video,
    Invalid(String),
}

impl ScanResult {
    /// What is kept of it when the page was unloaded in the meantime.
    pub open spec fn unloaded(self) -> ScanResult {
        match self {
            ScanResult::ConvertedImage(p, i) => ScanResult::ConvertedImage(p, i.unloaded()),
            ScanResult::Image(i) => ScanResult::Image(i.unloaded()),
            other => other,
        }
    }
}

/// A page being scanned.
#[derive(Debug)]
pub struct ScanFuture {
    /// Whether the image is of no use any more.
    pub unloaded: bool,
}

impl ScanFuture {
    /// Lets go of the image, but not of what else is found out.
    pub fn unload_scanning(&mut self)
        ensures
            final(self).unloaded,
    {
        self.unloaded = true;
    }

    /// What the scan comes to.
    pub fn finish(&self, result: ScanResult) -> (r: ScanResult)
        ensures
            r == if self.unloaded {
                result.unloaded()
            } else {
                result
            },
    {
        if !self.unloaded {
            return result;
        }
        match result {
            ScanResult::ConvertedImage(p, i) => ScanResult::ConvertedImage(
                p,
                ImageOrRes::Res(i.res()),
            ),
            ScanResult::Image(i) => ScanResult::Image(ImageOrRes::Res(i.res())),
            ScanResult::Animation(r) => ScanResult::Animation(r),
            ScanResult::Video => ScanResult::Video,
            ScanResult::Invalid(e) => ScanResult::Invalid(e),
        }
    }
}

/// A page being loaded, by what it was started with.
#[derive(Debug)]
pub struct LoadFuture {
    pub extra_info: WorkParams,
}

} // verus!

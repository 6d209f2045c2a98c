//! Images that are loaded from a file and scaled down to fit.
use vstd::prelude::*;

use crate::com::displayable::{Displayable, DisplayableView, ImageWithRes};
use crate::com::image::Image;
use crate::com::res::Res;
use crate::manager::work::{Work, WorkParams};
use crate::pools::downscaling::DownscaleFuture;
use crate::pools::loading::{ImageOrRes, LoadFuture, UnscaledImage};

verus! {

/// How far the work on an image has come.
#[derive(Debug)]
pub enum ImageState {
    Unloaded,
    Loading(LoadFuture),
    /// Loading again for another size. The scaled image is shown until then.
    Reloading(LoadFuture, Image),
    Scaling(DownscaleFuture, UnscaledImage),
    Loaded(UnscaledImage),
    Scaled(Image),
    Failed(String),
}

/// A still image. The file is somewhere else and belongs to somebody else.
#[derive(Debug)]
pub struct RegularImage {
    pub state: ImageState,
    /// The resolution of the file, which is that of the upscaled file where there is one.
    pub file_res: Res,
    pub path: String,
}

/// What to do next for an image.
#[derive(Clone, Copy, Debug, PartialEq, Eq, Structural)]
pub enum ImageStep {
    /// Start to load the file.
    StartLoading(WorkParams),
    /// Start to scale the loaded image down.
    StartScaling(WorkParams),
    /// Wait until the file is loaded.
    AwaitLoading,
    /// Wait until the image is scaled down.
    AwaitScaling,
    /// Stop loading, which is no longer needed.
    CancelLoading,
    /// Stop scaling, which is no longer needed or goes to another size.
    CancelScaling,
}

/// What to stop when an image is let go of.
#[derive(Clone, Copy, Debug, PartialEq, Eq, Structural)]
pub enum Cancel {
    Nothing,
    Loading,
    Scaling,
}

/// Whether an image of some size is of the wrong size.
pub open spec fn wrong_size(file_res: Res, params: WorkParams, existing: Res) -> bool {
    file_res.fitted(params.target_res) != existing
}

/// Whether an image goes to another size than it is being scaled to.
pub open spec fn other_size(file_res: Res, params: WorkParams, existing: WorkParams) -> bool {
    file_res.fitted(params.target_res) != file_res.fitted(existing.target_res)
}

fn needs_rescale_loaded(file_res: Res, params: WorkParams, existing: Res) -> (r: bool)
    ensures
        r == wrong_size(file_res, params, existing),
{
    !(file_res.fit_inside(params.target_res) == existing)
}

fn needs_rescale_scaling(file_res: Res, params: WorkParams, existing: WorkParams) -> (r: bool)
    ensures
        r == other_size(file_res, params, existing),
{
    !(file_res.fit_inside(params.target_res) == file_res.fit_inside(existing.target_res))
}

impl RegularImage {
    /// What is shown of the image, which may be the upscaled one of a page.
    pub open spec fn shown(self, original_res: Option<Res>) -> DisplayableView {
        let original = match original_res {
            Some(r) => r,
            None => self.file_res,
        };
        match self.state {
            ImageState::Unloaded | ImageState::Loading(_) => DisplayableView::Loading {
                file_res: self.file_res,
                original_res: original,
            },
            ImageState::Reloading(_, img)
            | ImageState::Loaded(UnscaledImage(img))
            | ImageState::Scaling(_, UnscaledImage(img))
            | ImageState::Scaled(img) => DisplayableView::Image(
                ImageWithRes { img, file_res: self.file_res, original_res: original },
            ),
            ImageState::Failed(e) => DisplayableView::Error(e@),
        }
    }

    /// Whether there is something to do for the image.
    pub open spec fn spec_has_work(self, work: Work) -> bool {
        match work.spec_params() {
            None => false,
            Some(t) => match self.state {
                ImageState::Unloaded => true,
                ImageState::Loading(_) | ImageState::Reloading(..) => work.downscales(),
                ImageState::Loaded(i) => work.downscales() && wrong_size(self.file_res, t, i.0.res),
                ImageState::Scaling(f, _) => {
                    ||| work is Finalize
                    ||| work.downscales() && other_size(self.file_res, t, f.extra_info)
                },
                ImageState::Scaled(i) => wrong_size(self.file_res, t, i.res),
                ImageState::Failed(_) => false,
            },
        }
    }

    /// Whether the image can be worked on. It can wherever there is something to do.
    pub open spec fn can_do(self, work: Work) -> bool {
        work.spec_params() matches Some(t) && match self.state {
            ImageState::Loaded(_) => work.downscales(),
            ImageState::Scaled(i) => wrong_size(self.file_res, t, i.res),
            ImageState::Failed(_) => false,
            _ => true,
        }
    }

    /// What to do next for the image.
    pub open spec fn next_step(self, work: Work) -> ImageStep {
        let t = work.spec_params()->0;
        match self.state {
            ImageState::Unloaded | ImageState::Scaled(_) => ImageStep::StartLoading(t),
            ImageState::Loading(_) => ImageStep::AwaitLoading,
            ImageState::Reloading(_, i) => if wrong_size(self.file_res, t, i.res) {
                ImageStep::AwaitLoading
            } else {
                ImageStep::CancelLoading
            },
            ImageState::Scaling(f, i) => if wrong_size(self.file_res, t, i.0.res) && !other_size(
                self.file_res,
                t,
                f.extra_info,
            ) {
                ImageStep::AwaitScaling
            } else {
                ImageStep::CancelScaling
            },
            _ => ImageStep::StartScaling(t),
        }
    }

    /// The state once something was stopped.
    pub open spec fn after_step(self, work: Work) -> ImageState {
        match (self.state, self.next_step(work)) {
            (ImageState::Reloading(_, i), ImageStep::CancelLoading) => ImageState::Scaled(i),
            (ImageState::Scaling(_, i), ImageStep::CancelScaling) => ImageState::Loaded(i),
            (s, _) => s,
        }
    }

    /// An image that was found in a file.
    pub fn new(ior: ImageOrRes, path: String) -> (r: Self)
        ensures
            r.file_res == ior.spec_res(),
            r.path == path,
            r.state == match ior {
                ImageOrRes::Image(i) => ImageState::Loaded(i),
                ImageOrRes::Res(_) => ImageState::Unloaded,
            },
    {
        let file_res = ior.res();
        let state = match ior {
            ImageOrRes::Image(i) => ImageState::Loaded(i),
            ImageOrRes::Res(_) => ImageState::Unloaded,
        };
        RegularImage { state, file_res, path }
    }

    /// What is shown of the image.
    pub fn get_displayable(&self, original_res: Option<Res>) -> (r: Displayable)
        ensures
            r@ == self.shown(original_res),
            r.wf(),
    {
        let original = match original_res {
            Some(r) => r,
            None => self.file_res,
        };
        let img: Image = match &self.state {
            ImageState::Unloaded | ImageState::Loading(_) => {
                return Displayable::Loading { file_res: self.file_res, original_res: original };
            },
            ImageState::Failed(e) => return Displayable::Error(e.clone()),
            ImageState::Reloading(_, img) => img.share(),
            ImageState::Loaded(UnscaledImage(img)) => img.share(),
            ImageState::Scaling(_, UnscaledImage(img)) => img.share(),
            ImageState::Scaled(img) => img.share(),
        };
        Displayable::Image(ImageWithRes { img, file_res: self.file_res, original_res: original })
    }

    /// Whether there is something to do for the image.
    pub fn has_work(&self, work: &Work) -> (r: bool)
        ensures
            r == self.spec_has_work(*work),
    {
        let t = match work.params() {
            Some(t) => t,
            None => return false,
        };
        match &self.state {
            ImageState::Unloaded => true,
            ImageState::Loading(_) | ImageState::Reloading(..) => work.downscale(),
            ImageState::Loaded(UnscaledImage(img)) => {
                work.downscale() && needs_rescale_loaded(self.file_res, t, img.res)
            },
            ImageState::Scaling(f, _) => {
                if work.finalize() {
                    return true;
                }
                work.downscale() && needs_rescale_scaling(self.file_res, t, f.params())
            },
            ImageState::Scaled(img) => needs_rescale_loaded(self.file_res, t, img.res),
            ImageState::Failed(_) => false,
        }
    }

    /// Finds out what to do next. Where something is to be stopped, the image goes back to the
    /// state before it at once.
    pub fn do_work(&mut self, work: &Work) -> (r: ImageStep)
        requires
            old(self).can_do(*work),
        ensures
            r == old(self).next_step(*work),
            final(self).state == old(self).after_step(*work),
            final(self).file_res == old(self).file_res,
            final(self).path == old(self).path,
    {
        let t = work.params().unwrap();
        let (step, state): (ImageStep, ImageState) = match &self.state {
            ImageState::Unloaded | ImageState::Scaled(_) => return ImageStep::StartLoading(t),
            ImageState::Loading(_) => return ImageStep::AwaitLoading,
            ImageState::Reloading(_, i) => {
                if needs_rescale_loaded(self.file_res, t, i.res) {
                    return ImageStep::AwaitLoading;
                }
                (ImageStep::CancelLoading, ImageState::Scaled(i.share()))
            },
            ImageState::Loaded(_) => return ImageStep::StartScaling(t),
            ImageState::Scaling(f, i) => {
                if needs_rescale_loaded(self.file_res, t, i.0.res) && !needs_rescale_scaling(
                    self.file_res,
                    t,
                    f.params(),
                ) {
                    return ImageStep::AwaitScaling;
                }
                (ImageStep::CancelScaling, ImageState::Loaded(i.share()))
            },
            ImageState::Failed(_) => return ImageStep::AwaitLoading,
        };
        self.state = state;
        step
    }

    /// Loading has started, as the last step said.
    pub fn loading_started(&mut self, params: WorkParams)
        requires
            old(self).state is Unloaded || old(self).state is Scaled,
        ensures
            final(self).state == match old(self).state {
                ImageState::Scaled(i) => ImageState::Reloading(LoadFuture { extra_info: params }, i),
                _ => ImageState::Loading(LoadFuture { extra_info: params }),
            },
            final(self).file_res == old(self).file_res,
            final(self).path == old(self).path,
    {
        let f = LoadFuture { extra_info: params };
        let state = match &self.state {
            ImageState::Scaled(i) => ImageState::Reloading(f, i.share()),
            _ => ImageState::Loading(f),
        };
        self.state = state;
    }

    /// Loading has come to an end.
    pub fn loading_finished(&mut self, result: Result<UnscaledImage, String>)
        requires
            old(self).state is Loading || old(self).state is Reloading,
        ensures
            final(self).state == match result {
                Ok(i) => ImageState::Loaded(i),
                Err(e) => ImageState::Failed(e),
            },
            final(self).file_res == old(self).file_res,
            final(self).path == old(self).path,
    {
        self.state = match result {
            Ok(i) => ImageState::Loaded(i),
            Err(e) => ImageState::Failed(e),
        };
    }

    /// Scaling has started, as the last step said.
    pub fn scaling_started(&mut self, params: WorkParams)
        requires
            old(self).state is Loaded,
        ensures
            final(self).state == ImageState::Scaling(
                DownscaleFuture { extra_info: params },
                old(self).state->Loaded_0,
            ),
            final(self).file_res == old(self).file_res,
            final(self).path == old(self).path,
    {
        let state = match &self.state {
            ImageState::Loaded(i) => ImageState::Scaling(
                DownscaleFuture { extra_info: params },
                i.share(),
            ),
            _ => return,
        };
        self.state = state;
    }

    /// Scaling has come to an end.
    pub fn scaling_finished(&mut self, result: Result<Image, String>)
        requires
            old(self).state is Scaling,
        ensures
            final(self).state == match result {
                Ok(i) => ImageState::Scaled(i),
                Err(e) => ImageState::Failed(e),
            },
            final(self).file_res == old(self).file_res,
            final(self).path == old(self).path,
    {
        self.state = match result {
            Ok(i) => ImageState::Scaled(i),
            Err(e) => ImageState::Failed(e),
        };
    }

    /// What is going on for the image.
    pub open spec fn ongoing(self) -> Cancel {
        match self.state {
            ImageState::Loading(_) | ImageState::Reloading(..) => Cancel::Loading,
            ImageState::Scaling(..) => Cancel::Scaling,
            _ => Cancel::Nothing,
        }
    }

    /// What to stop and wait for before the image goes away.
    pub fn join(&self) -> (r: Cancel)
        ensures
            r == self.ongoing(),
    {
        match self.state {
            ImageState::Unloaded
            | ImageState::Loaded(_)
            | ImageState::Failed(_)
            | ImageState::Scaled(_) => Cancel::Nothing,
            ImageState::Loading(_) | ImageState::Reloading(..) => Cancel::Loading,
            ImageState::Scaling(..) => Cancel::Scaling,
        }
    }

    /// The state of an image that was let go of.
    pub open spec fn unloaded(self) -> ImageState {
        if self.state is Failed {
            self.state
        } else {
            ImageState::Unloaded
        }
    }

    /// Lets go of the image, and says what to stop.
    pub fn unload(&mut self) -> (r: Cancel)
        ensures
            r == old(self).ongoing(),
            final(self).state == old(self).unloaded(),
            final(self).file_res == old(self).file_res,
            final(self).path == old(self).path,
    {
        let r = self.join();
        match self.state {
            ImageState::Failed(_) => {},
            _ => {
                self.state = ImageState::Unloaded;
            },
        }
        r
    }
}

/// An image can be worked on wherever there is something to do.
pub proof fn law_work_can_be_done(i: RegularImage, work: Work)
    requires
        i.spec_has_work(work),
    ensures
        i.can_do(work),
{
}

/// Scaling to the size that is asked for, or loading an image of that size, leaves nothing to do.
pub proof fn law_right_size_is_done(i: RegularImage, work: Work)
    requires
        work.spec_params() is Some,
        match i.state {
            ImageState::Loaded(img) => img.0.res == i.file_res.fitted(
                work.spec_params()->0.target_res,
            ),
            ImageState::Scaled(img) => img.res == i.file_res.fitted(
                work.spec_params()->0.target_res,
            ),
            _ => false,
        },
    ensures
        !i.spec_has_work(work),
{
}

/// Whatever is stopped, the same work does not stop it again: the image then waits for nothing.
pub proof fn law_stopped_once(i: RegularImage, j: RegularImage, work: Work)
    requires
        i.can_do(work),
        i.next_step(work) is CancelLoading || i.next_step(work) is CancelScaling,
        j.state == i.after_step(work),
        j.file_res == i.file_res,
    ensures
        j.ongoing() is Nothing,
        i.next_step(work) is CancelLoading ==> !j.spec_has_work(work),
{
}

} // verus!

//! Images that are upscaled to another file first.
use vstd::prelude::*;

use crate::com::displayable::{Displayable, DisplayableView};
use crate::com::res::Res;
use crate::manager::page::regular_image::{Cancel, ImageStep, RegularImage};
use crate::manager::work::Work;
use crate::pools::loading::ImageOrRes;
use crate::pools::upscaling::{estimate_upscaled_resolution, is_estimate};

verus! {

/// How far upscaling has come, with the resolution that is expected of it.
#[derive(Debug)]
pub enum UpscaledState {
    Unupscaled(Res),
    Upscaling(Res),
    Upscaled(RegularImage),
    Failed(String),
}

/// An image that is upscaled to another file, which belongs to it and is not there at first.
#[derive(Debug)]
pub struct UpscaledImage {
    pub state: UpscaledState,
    pub original_path: String,
    /// The resolution before upscaling.
    pub original_res: Res,
    pub path: String,
}

/// What to do next for an upscaled image.
#[derive(Clone, Copy, Debug, PartialEq, Eq, Structural)]
pub enum UpscaledStep {
    StartUpscaling,
    AwaitUpscaling,
    /// Something for the file that was upscaled.
    Image(ImageStep),
    Nothing,
}

/// What to stop or wait for before an upscaled image goes away, and whether there is a file to
/// remove then.
#[derive(Clone, Copy, Debug, PartialEq, Eq, Structural)]
pub enum UpscaledJoin {
    Nothing,
    /// Wait for upscaling. There is a file if that succeeds.
    AwaitUpscaling,
    /// Stop what goes on for the upscaled file, and remove it.
    Remove(Cancel),
}

impl UpscaledImage {
    pub open spec fn shown(self) -> DisplayableView {
        match self.state {
            UpscaledState::Unupscaled(e) | UpscaledState::Upscaling(e) => DisplayableView::Loading {
                file_res: e,
                original_res: self.original_res,
            },
            UpscaledState::Upscaled(r) => r.shown(Some(self.original_res)),
            UpscaledState::Failed(e) => DisplayableView::Error(e@),
        }
    }

    pub open spec fn spec_has_work(self, work: Work) -> bool {
        work.spec_upscale() && match self.state {
            UpscaledState::Unupscaled(_) => true,
            UpscaledState::Upscaling(_) => work.spec_params() is Some,
            UpscaledState::Upscaled(r) => r.spec_has_work(work),
            UpscaledState::Failed(_) => false,
        }
    }

    /// Whether the image can be worked on.
    pub open spec fn can_do(self, work: Work) -> bool {
        work.spec_upscale() && match self.state {
            UpscaledState::Unupscaled(_) => true,
            UpscaledState::Upscaling(_) => work.spec_params() is Some,
            UpscaledState::Upscaled(r) => work.spec_params() is Some ==> r.can_do(work),
            UpscaledState::Failed(_) => false,
        }
    }

    /// What to do next for the image.
    pub open spec fn next_step(self, work: Work) -> UpscaledStep {
        match self.state {
            UpscaledState::Unupscaled(_) => UpscaledStep::StartUpscaling,
            UpscaledState::Upscaling(_) => UpscaledStep::AwaitUpscaling,
            UpscaledState::Upscaled(r) => if work.spec_params() is Some {
                UpscaledStep::Image(r.next_step(work))
            } else {
                UpscaledStep::Nothing
            },
            UpscaledState::Failed(_) => UpscaledStep::Nothing,
        }
    }

    /// Whether two are the same but for the state.
    pub open spec fn same_file(self, other: UpscaledImage) -> bool {
        &&& self.original_path == other.original_path
        &&& self.original_res == other.original_res
        &&& self.path == other.path
    }

    /// An image to be upscaled.
    pub fn new(
        path: String,
        original_path: String,
        original_res: Res,
        target: Res,
        minimum: Option<Res>,
    ) -> (r: Self)
        ensures
            r.state matches UpscaledState::Unupscaled(e) && is_estimate(
                original_res,
                target,
                minimum,
                e,
            ),
            r.original_path == original_path,
            r.original_res == original_res,
            r.path == path,
    {
        UpscaledImage {
            state: UpscaledState::Unupscaled(
                estimate_upscaled_resolution(original_res, target, minimum),
            ),
            original_path,
            original_res,
            path,
        }
    }

    /// What is shown of the image.
    pub fn get_displayable(&self) -> (r: Displayable)
        ensures
            r@ == self.shown(),
            r.wf(),
    {
        match &self.state {
            UpscaledState::Unupscaled(e) | UpscaledState::Upscaling(e) => Displayable::Loading {
                file_res: *e,
                original_res: self.original_res,
            },
            UpscaledState::Upscaled(r) => r.get_displayable(Some(self.original_res)),
            UpscaledState::Failed(e) => Displayable::Error(e.clone()),
        }
    }

    /// Whether there is something to do for the image.
    pub fn has_work(&self, work: &Work) -> (r: bool)
        ensures
            r == self.spec_has_work(*work),
    {
        if !work.upscale() {
            return false;
        }
        match &self.state {
            UpscaledState::Unupscaled(_) => true,
            UpscaledState::Upscaling(_) => work.load(),
            UpscaledState::Upscaled(r) => r.has_work(work),
            UpscaledState::Failed(_) => false,
        }
    }

    /// Finds out what to do next.
    pub fn do_work(&mut self, work: &Work) -> (r: UpscaledStep)
        requires
            old(self).can_do(*work),
        ensures
            r == old(self).next_step(*work),
            final(self).same_file(*old(self)),
            match old(self).state {
                UpscaledState::Upscaled(i) => if work.spec_params() is Some {
                    final(self).state == UpscaledState::Upscaled(
                        RegularImage { state: i.after_step(*work), ..i },
                    )
                } else {
                    final(self).state == old(self).state
                },
                _ => final(self).state == old(self).state,
            },
    {
        match &mut self.state {
            UpscaledState::Unupscaled(_) => UpscaledStep::StartUpscaling,
            UpscaledState::Upscaling(_) => UpscaledStep::AwaitUpscaling,
            UpscaledState::Upscaled(r) => {
                if work.load() {
                    UpscaledStep::Image(r.do_work(work))
                } else {
                    UpscaledStep::Nothing
                }
            },
            UpscaledState::Failed(_) => UpscaledStep::Nothing,
        }
    }

    /// Upscaling has started.
    pub fn upscaling_started(&mut self)
        requires
            old(self).state is Unupscaled,
        ensures
            final(self).state == UpscaledState::Upscaling(old(self).state->Unupscaled_0),
            final(self).same_file(*old(self)),
    {
        if let UpscaledState::Unupscaled(e) = &self.state {
            let e: Res = *e;
            self.state = UpscaledState::Upscaling(e);
        }
    }

    /// Upscaling has come to an end, with the resolution of the file.
    pub fn upscaling_finished(&mut self, result: Result<Res, String>)
        requires
            old(self).state is Upscaling,
        ensures
            final(self).same_file(*old(self)),
            match result {
                Ok(res) => {
                    &&& final(self).state matches UpscaledState::Upscaled(r)
                    &&& r.state is Unloaded
                    &&& r.file_res == res
                    &&& r.path@ == old(self).path@
                },
                Err(e) => final(self).state == UpscaledState::Failed(e),
            },
    {
        self.state = match result {
            Ok(res) => UpscaledState::Upscaled(
                RegularImage::new(ImageOrRes::Res(res), self.path.clone()),
            ),
            Err(e) => UpscaledState::Failed(e),
        };
    }

    /// What to do before the image goes away.
    pub fn join(&self) -> (r: UpscaledJoin)
        ensures
            r == match self.state {
                UpscaledState::Unupscaled(_) | UpscaledState::Failed(_) => UpscaledJoin::Nothing,
                UpscaledState::Upscaling(_) => UpscaledJoin::AwaitUpscaling,
                UpscaledState::Upscaled(i) => UpscaledJoin::Remove(i.ongoing()),
            },
    {
        match &self.state {
            UpscaledState::Unupscaled(_) | UpscaledState::Failed(_) => UpscaledJoin::Nothing,
            UpscaledState::Upscaling(_) => UpscaledJoin::AwaitUpscaling,
            UpscaledState::Upscaled(r) => UpscaledJoin::Remove(r.join()),
        }
    }

    /// The state of an image that was let go of. The upscaled file stays.
    pub open spec fn unloaded(self) -> UpscaledState {
        match self.state {
            UpscaledState::Upscaled(r) => UpscaledState::Upscaled(
                RegularImage { state: r.unloaded(), ..r },
            ),
            s => s,
        }
    }

    /// What is going on for the upscaled file.
    pub open spec fn ongoing(self) -> Cancel {
        match self.state {
            UpscaledState::Upscaled(r) => r.ongoing(),
            _ => Cancel::Nothing,
        }
    }

    /// Lets go of the image, and says what to stop.
    pub fn unload(&mut self) -> (r: Cancel)
        ensures
            r == old(self).ongoing(),
            final(self).state == old(self).unloaded(),
            final(self).same_file(*old(self)),
    {
        match &mut self.state {
            UpscaledState::Upscaled(r) => r.unload(),
            _ => Cancel::Nothing,
        }
    }
}

/// An image can be worked on wherever there is something to do.
pub proof fn law_work_can_be_done(i: UpscaledImage, work: Work)
    requires
        i.spec_has_work(work),
    ensures
        i.can_do(work),
{
}

} // verus!

//! Animations that are loaded from a file.
use vstd::prelude::*;

use crate::com::displayable::{Displayable, DisplayableView};
use crate::com::frames::AnimatedImage;
use crate::com::res::Res;
use crate::manager::work::{Work, WorkParams};
use crate::pools::loading::LoadFuture;

verus! {

/// How far the work on an animation has come.
#[derive(Debug)]
pub enum AnimationState {
    Unloaded,
    Loading(LoadFuture),
    Loaded(AnimatedImage),
    Failed(String),
}

/// An animation. The file is somewhere else and belongs to somebody else.
#[derive(Debug)]
pub struct Animation {
    pub state: AnimationState,
    pub original_res: Res,
    pub path: String,
}

/// What to do next for an animation.
#[derive(Clone, Copy, Debug, PartialEq, Eq, Structural)]
pub enum AnimationStep {
    StartLoading(WorkParams),
    AwaitLoading,
}

impl Animation {
    /// Whether a loaded animation has frames.
    pub open spec fn wf(self) -> bool {
        self.state matches AnimationState::Loaded(a) ==> a.wf()
    }

    pub open spec fn shown(self) -> DisplayableView {
        match self.state {
            AnimationState::Unloaded | AnimationState::Loading(_) => DisplayableView::Loading {
                file_res: self.original_res,
                original_res: self.original_res,
            },
            AnimationState::Loaded(a) => DisplayableView::Animation(a),
            AnimationState::Failed(e) => DisplayableView::Error(e@),
        }
    }

    pub open spec fn spec_has_work(self, work: Work) -> bool {
        work.spec_params() is Some && match self.state {
            AnimationState::Unloaded => true,
            AnimationState::Loading(_) => work is Finalize,
            AnimationState::Loaded(_) | AnimationState::Failed(_) => false,
        }
    }

    /// An animation that was found in a file.
    pub fn new(path: String, original_res: Res) -> (r: Self)
        ensures
            r.state is Unloaded,
            r.original_res == original_res,
            r.path == path,
    {
        Animation { state: AnimationState::Unloaded, original_res, path }
    }

    /// What is shown of the animation.
    pub fn get_displayable(&self) -> (r: Displayable)
        requires
            self.wf(),
        ensures
            r@ == self.shown(),
            r.wf(),
    {
        match &self.state {
            AnimationState::Unloaded | AnimationState::Loading(_) => Displayable::Loading {
                file_res: self.original_res,
                original_res: self.original_res,
            },
            AnimationState::Loaded(a) => Displayable::Animation(a.share()),
            AnimationState::Failed(e) => Displayable::Error(e.clone()),
        }
    }

    /// Whether there is something to do for the animation.
    pub fn has_work(&self, work: &Work) -> (r: bool)
        ensures
            r == self.spec_has_work(*work),
    {
        if !work.load() {
            return false;
        }
        match &self.state {
            AnimationState::Unloaded => true,
            AnimationState::Loading(_) => work.finalize(),
            AnimationState::Loaded(_) | AnimationState::Failed(_) => false,
        }
    }

    /// Finds out what to do next.
    pub fn do_work(&self, work: &Work) -> (r: AnimationStep)
        requires
            self.spec_has_work(*work),
        ensures
            r == if self.state is Unloaded {
                AnimationStep::StartLoading(work.spec_params()->0)
            } else {
                AnimationStep::AwaitLoading
            },
    {
        let t = work.params().unwrap();
        match &self.state {
            AnimationState::Unloaded => AnimationStep::StartLoading(t),
            _ => AnimationStep::AwaitLoading,
        }
    }

    /// Loading has started.
    pub fn loading_started(&mut self, params: WorkParams)
        requires
            old(self).state is Unloaded,
        ensures
            *final(self) == (Animation {
                state: AnimationState::Loading(LoadFuture { extra_info: params }),
                ..*old(self)
            }),
    {
        self.state = AnimationState::Loading(LoadFuture { extra_info: params });
    }

    /// Loading has come to an end.
    pub fn loading_finished(&mut self, result: Result<AnimatedImage, String>)
        requires
            old(self).state is Loading,
            result matches Ok(a) ==> a.wf(),
        ensures
            *final(self) == (Animation {
                state: match result {
                    Ok(a) => AnimationState::Loaded(a),
                    Err(e) => AnimationState::Failed(e),
                },
                ..*old(self)
            }),
            final(self).wf(),
    {
        self.state = match result {
            Ok(a) => AnimationState::Loaded(a),
            Err(e) => AnimationState::Failed(e),
        };
    }

    /// Whether loading is to be stopped and waited for before the animation goes away.
    pub fn join(&self) -> (r: bool)
        ensures
            r == (self.state is Loading),
    {
        match &self.state {
            AnimationState::Loading(_) => true,
            AnimationState::Unloaded | AnimationState::Loaded(_) | AnimationState::Failed(_) => {
                false
            },
        }
    }

    /// The state of an animation that was let go of.
    pub open spec fn unloaded(self) -> AnimationState {
        if self.state is Failed {
            self.state
        } else {
            AnimationState::Unloaded
        }
    }

    /// Lets go of the animation, and says whether to stop loading.
    pub fn unload(&mut self) -> (r: bool)
        ensures
            r == (old(self).state is Loading),
            *final(self) == (Animation { state: old(self).unloaded(), ..*old(self) }),
    {
        let r: bool = self.join();
        match &self.state {
            AnimationState::Failed(_) => {},
            _ => {
                self.state = AnimationState::Unloaded;
            },
        }
        r
    }
}

} // verus!

//! Videos, which are played from their file.
use vstd::prelude::*;

use crate::com::displayable::{Displayable, DisplayableView};
use crate::manager::work::Work;

verus! {

/// Whether a video can be played.
#[derive(Debug)]
pub enum VideoState {
    Unloaded,
    Failed(String),
}

/// A video. The file is somewhere else and belongs to somebody else.
#[derive(Debug)]
pub struct Video {
    pub state: VideoState,
    pub path: String,
}

impl Video {
    pub open spec fn shown(self) -> DisplayableView {
        match self.state {
            VideoState::Unloaded => DisplayableView::Video(self.path@),
            VideoState::Failed(e) => DisplayableView::Error(e@),
        }
    }

    /// A video that was found in a file.
    pub fn new(path: String) -> (r: Self)
        ensures
            r.state is Unloaded,
            r.path == path,
    {
        Video { state: VideoState::Unloaded, path }
    }

    /// What is shown of the video.
    pub fn get_displayable(&self) -> (r: Displayable)
        ensures
            r@ == self.shown(),
            r.wf(),
    {
        match &self.state {
            VideoState::Unloaded => Displayable::Video(self.path.clone()),
            VideoState::Failed(e) => Displayable::Error(e.clone()),
        }
    }

    /// Whether there is something to do for the video. There never is.
    pub fn has_work(&self, _work: &Work) -> (r: bool)
        ensures
            !r,
    {
        false
    }
}

} // verus!

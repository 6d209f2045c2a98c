//! What the window asks of the page manager.
use vstd::prelude::*;

use crate::com::direction::Direction;
use crate::com::mode::{DisplayMode, Fit};
use crate::com::res::Res;
use crate::com::toggle::Toggle;
use crate::path::texts;

verus! {

/// What the window asks of the page manager.
#[derive(Debug)]
pub enum ManagerAction {
    Resolution(Res),
    MovePages(Direction, usize),
    NextArchive,
    PreviousArchive,
    Open(Vec<String>),
    Status,
    ListPages,
    Execute(String),
    Script(String),
    Upscaling(Toggle),
    Manga(Toggle),
    FitStrategy(Fit),
    Display(DisplayMode),
    CleanExit,
}

/// What an action is.
pub enum ActionView {
    Resolution(Res),
    MovePages(Direction, usize),
    NextArchive,
    PreviousArchive,
    Open(Seq<Seq<char>>),
    Status,
    ListPages,
    Execute(Seq<char>),
    Script(Seq<char>),
    Upscaling(Toggle),
    Manga(Toggle),
    FitStrategy(Fit),
    Display(DisplayMode),
    CleanExit,
}

impl View for ManagerAction {
    type V = ActionView;

    open spec fn view(&self) -> ActionView {
        match self {
            ManagerAction::Resolution(r) => ActionView::Resolution(*r),
            ManagerAction::MovePages(d, n) => ActionView::MovePages(*d, *n),
            ManagerAction::NextArchive => ActionView::NextArchive,
            ManagerAction::PreviousArchive => ActionView::PreviousArchive,
            ManagerAction::Open(files) => ActionView::Open(texts(files@)),
            ManagerAction::Status => ActionView::Status,
            ManagerAction::ListPages => ActionView::ListPages,
            ManagerAction::Execute(s) => ActionView::Execute(s@),
            ManagerAction::Script(s) => ActionView::Script(s@),
            ManagerAction::Upscaling(t) => ActionView::Upscaling(*t),
            ManagerAction::Manga(t) => ActionView::Manga(*t),
            ManagerAction::FitStrategy(f) => ActionView::FitStrategy(*f),
            ManagerAction::Display(d) => ActionView::Display(*d),
            ManagerAction::CleanExit => ActionView::CleanExit,
        }
    }
}

} // verus!

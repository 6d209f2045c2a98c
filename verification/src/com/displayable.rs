//! What is shown of a page.
use vstd::prelude::*;

use crate::com::frames::AnimatedImage;
use crate::com::image::Image;
use crate::com::res::Res;
use crate::text::same_text;

verus! {

/// An image with the resolutions that it had before.
#[derive(Debug)]
pub struct ImageWithRes {
    pub img: Image,
    /// The resolution of the file.
    pub file_res: Res,
    /// The resolution of the page before any upscaling.
    pub original_res: Res,
}

/// The resolution by which something is laid out, if it can be and that is known.
#[derive(Clone, Copy, Debug, PartialEq, Eq, Structural)]
pub enum MaybeLayoutRes {
    Incompatible,
    Unknown,
    Res(Res),
}

impl MaybeLayoutRes {
    pub open spec fn spec_res(self) -> Option<Res> {
        match self {
            MaybeLayoutRes::Incompatible | MaybeLayoutRes::Unknown => None,
            MaybeLayoutRes::Res(r) => Some(r),
        }
    }

    pub fn res(self) -> (r: Option<Res>)
        ensures
            r == self.spec_res(),
    {
        match self {
            MaybeLayoutRes::Incompatible | MaybeLayoutRes::Unknown => None,
            MaybeLayoutRes::Res(r) => Some(r),
        }
    }
}

/// What is shown of a page.
#[derive(Debug)]
pub enum Displayable {
    Image(ImageWithRes),
    Animation(AnimatedImage),
    /// The path of a video.
    Video(String),
    Error(String),
    /// Being loaded, and known to be laid out by its resolution.
    Loading {
        /// The resolution of the file, or what it is expected to be after upscaling.
        file_res: Res,
        /// The resolution of the page before any upscaling.
        original_res: Res,
    },
    /// Nothing is known of it yet.
    Pending,
}

/// What something is that is shown of a page.
#[allow(inconsistent_fields)]
pub enum DisplayableView {
    Image(ImageWithRes),
    Animation(AnimatedImage),
    Video(Seq<char>),
    Error(Seq<char>),
    Loading { file_res: Res, original_res: Res },
    Pending,
}

impl DisplayableView {
    /// How it is laid out.
    pub open spec fn layout(self) -> MaybeLayoutRes {
        match self {
            DisplayableView::Image(i) => MaybeLayoutRes::Res(i.file_res),
            DisplayableView::Loading { file_res, .. } => MaybeLayoutRes::Res(file_res),
            DisplayableView::Animation(a) => MaybeLayoutRes::Res(a.frames.frames.items()[0].0.res),
            DisplayableView::Pending => MaybeLayoutRes::Unknown,
            DisplayableView::Video(_) | DisplayableView::Error(_) => MaybeLayoutRes::Incompatible,
        }
    }

    /// The resolution that it is laid out by, if any.
    pub open spec fn res(self) -> Option<Res> {
        self.layout().spec_res()
    }
}

impl View for Displayable {
    type V = DisplayableView;

    open spec fn view(&self) -> DisplayableView {
        match self {
            Displayable::Image(i) => DisplayableView::Image(*i),
            Displayable::Animation(a) => DisplayableView::Animation(*a),
            Displayable::Video(p) => DisplayableView::Video(p@),
            Displayable::Error(e) => DisplayableView::Error(e@),
            Displayable::Loading { file_res, original_res } => DisplayableView::Loading {
                file_res: *file_res,
                original_res: *original_res,
            },
            Displayable::Pending => DisplayableView::Pending,
        }
    }
}

impl Displayable {
    /// Whether an animation has frames.
    pub open spec fn wf(self) -> bool {
        self matches Displayable::Animation(a) ==> a.wf()
    }

    pub open spec fn spec_layout(self) -> MaybeLayoutRes {
        match self {
            Displayable::Image(i) => MaybeLayoutRes::Res(i.file_res),
            Displayable::Loading { file_res, .. } => MaybeLayoutRes::Res(file_res),
            Displayable::Animation(a) => MaybeLayoutRes::Res(a.frames.frames.items()[0].0.res),
            Displayable::Pending => MaybeLayoutRes::Unknown,
            Displayable::Video(_) | Displayable::Error(_) => MaybeLayoutRes::Incompatible,
        }
    }

    /// The resolution that it is laid out by, if any.
    pub open spec fn layout_res(self) -> Option<Res> {
        self.spec_layout().spec_res()
    }

    /// The resolution before it is fitted, if it can be scrolled.
    pub fn layout(&self) -> (r: MaybeLayoutRes)
        requires
            self.wf(),
        ensures
            r == self.spec_layout(),
    {
        match self {
            Displayable::Image(i) => MaybeLayoutRes::Res(i.file_res),
            Displayable::Loading { file_res, .. } => MaybeLayoutRes::Res(*file_res),
            Displayable::Animation(a) => MaybeLayoutRes::Res(a.frames.frames.index(0).0.res),
            Displayable::Pending => MaybeLayoutRes::Unknown,
            Displayable::Video(_) | Displayable::Error(_) => MaybeLayoutRes::Incompatible,
        }
    }

    /// The resolution that it is laid out by.
    pub fn unwrap_res(&self) -> (r: Res)
        requires
            self.wf(),
            self.layout_res() is Some,
        ensures
            Some(r) == self.layout_res(),
    {
        self.layout().res().unwrap()
    }

    pub open spec fn spec_ongoing(self) -> bool {
        self is Loading || self is Pending
    }

    /// Whether there is more of it to come.
    pub fn is_ongoing_work(&self) -> (r: bool)
        ensures
            r == self.spec_ongoing(),
    {
        match self {
            Displayable::Image(_)
            | Displayable::Animation(_)
            | Displayable::Video(_)
            | Displayable::Error(_) => false,
            Displayable::Loading { .. } | Displayable::Pending => true,
        }
    }

    /// Whether two show the same.
    pub open spec fn same(self, other: Displayable) -> bool {
        match (self, other) {
            (Displayable::Image(a), Displayable::Image(b)) => {
                a.img.same(b.img) && a.file_res == b.file_res && a.original_res == b.original_res
            },
            (Displayable::Animation(a), Displayable::Animation(b)) => a.same(b),
            (Displayable::Video(a), Displayable::Video(b)) => a@ == b@,
            (Displayable::Error(a), Displayable::Error(b)) => a@ == b@,
            (
                Displayable::Loading { file_res: a, original_res: b },
                Displayable::Loading { file_res: c, original_res: d },
            ) => a == c && b == d,
            (Displayable::Pending, Displayable::Pending) => true,
            _ => false,
        }
    }

    /// Whether two show the same.
    pub fn is_same(&self, other: &Displayable) -> (r: bool)
        ensures
            r == self.same(*other),
    {
        match (self, other) {
            (Displayable::Image(a), Displayable::Image(b)) => {
                a.img.is_same(&b.img) && a.file_res == b.file_res && a.original_res
                    == b.original_res
            },
            (Displayable::Animation(a), Displayable::Animation(b)) => a.serial == b.serial,
            (Displayable::Video(a), Displayable::Video(b)) => same_text(a.as_str(), b.as_str()),
            (Displayable::Error(a), Displayable::Error(b)) => same_text(a.as_str(), b.as_str()),
            (
                Displayable::Loading { file_res: a, original_res: b },
                Displayable::Loading { file_res: c, original_res: d },
            ) => *a == *c && *b == *d,
            (Displayable::Pending, Displayable::Pending) => true,
            _ => false,
        }
    }

    /// Another one that shows the same.
    pub fn share(&self) -> (r: Displayable)
        ensures
            r == *self,
    {
        match self {
            Displayable::Image(i) => Displayable::Image(
                ImageWithRes {
                    img: i.img.share(),
                    file_res: i.file_res,
                    original_res: i.original_res,
                },
            ),
            Displayable::Animation(a) => Displayable::Animation(a.share()),
            Displayable::Video(p) => Displayable::Video(p.clone()),
            Displayable::Error(e) => Displayable::Error(e.clone()),
            Displayable::Loading { file_res, original_res } => Displayable::Loading {
                file_res: *file_res,
                original_res: *original_res,
            },
            Displayable::Pending => Displayable::Pending,
        }
    }
}

impl Default for Displayable {
    fn default() -> (r: Self)
        ensures
            r == Displayable::Pending,
    {
        Displayable::Pending
    }
}

/// Pages that are shown as images are laid out by the resolution of their file, and an animation
/// by that of its first frame. Videos and errors cannot be, and of a page of which nothing is known
/// that is not known either.
pub proof fn law_how_pages_are_laid_out(d: Displayable)
    ensures
        d.spec_layout() is Unknown <==> d is Pending,
        d.spec_layout() is Incompatible <==> d is Video || d is Error,
        d matches Displayable::Image(i) ==> d.layout_res() == Some(i.file_res),
        d matches Displayable::Loading { file_res, .. } ==> d.layout_res() == Some(file_res),
        d matches Displayable::Animation(a) ==> d.layout_res() == Some(
            a.frames.frames.items()[0].0.res,
        ),
        d.layout_res() is Some <==> d is Image || d is Loading || d is Animation,
        d@.res() == d.layout_res(),
        d.spec_ongoing() <==> d is Loading || d is Pending,
{
}

/// What shows the same as something is laid out in the same way and is of the same kind.
pub proof fn law_same_pages(a: Displayable, b: Displayable)
    requires
        a.same(b),
    ensures
        a is Image <==> b is Image,
        a is Animation <==> b is Animation,
        a is Video <==> b is Video,
        a is Error <==> b is Error,
        a is Loading <==> b is Loading,
        a is Pending <==> b is Pending,
        !(a is Animation) ==> a.layout_res() == b.layout_res(),
        match (a, b) {
            (Displayable::Image(x), Displayable::Image(y)) => x.img.same(y.img) && x.original_res
                == y.original_res,
            (Displayable::Animation(x), Displayable::Animation(y)) => x.serial == y.serial,
            (Displayable::Video(x), Displayable::Video(y)) => x@ == y@,
            (Displayable::Error(x), Displayable::Error(y)) => x@ == y@,
            (
                Displayable::Loading { original_res: x, .. },
                Displayable::Loading { original_res: y, .. },
            ) => x == y,
            _ => true,
        },
{
}

/// Everything shows the same as itself, and as what shows the same as it.
pub proof fn law_showing_the_same(a: Displayable, b: Displayable)
    ensures
        a.same(a),
        a.same(b) ==> b.same(a),
{
}

} // verus!

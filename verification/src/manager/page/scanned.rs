//! Pages of which it is known what they are.
use vstd::prelude::*;

use crate::com::displayable::{Displayable, DisplayableView};
use crate::com::res::Res;
use crate::manager::page::animation::{Animation, AnimationStep};
use crate::manager::page::regular_image::{Cancel, ImageState, ImageStep, RegularImage};
use crate::manager::page::upscaled_image::{UpscaledImage, UpscaledJoin, UpscaledState, UpscaledStep};
use crate::manager::page::video::Video;
use crate::manager::work::Work;
use crate::number::{decimal, push_decimal};
use crate::path::{inside, join_path};
use crate::pools::loading::{ImageOrRes, ScanResult};
use crate::pools::upscaling::{is_estimate, is_upscaled};

verus! {

/// What a page is.
#[derive(Debug)]
pub enum PageKind {
    /// An image that is upscaled in upscaling mode.
    Image(RegularImage, UpscaledImage),
    UnupscaledImage(RegularImage),
    Animation(Animation),
    Video(Video),
    Invalid(String),
}

/// A page of which it is known what it is.
#[derive(Debug)]
pub struct ScannedPage {
    pub kind: PageKind,
    /// A file that the page was converted to. It belongs to the page.
    pub converted_file: Option<String>,
}

/// What to do next for a page.
#[derive(Clone, Copy, Debug, PartialEq, Eq, Structural)]
pub enum ScannedStep {
    Image(ImageStep),
    Upscaled(UpscaledStep),
    Animation(AnimationStep),
}

/// What to stop when a page is let go of.
#[derive(Clone, Copy, Debug, PartialEq, Eq, Structural)]
pub struct Cancels {
    pub image: Cancel,
    pub upscaled: Cancel,
    /// Whether to stop loading an animation.
    pub animation: bool,
}

/// What to do before a page goes away.
#[derive(Debug)]
pub struct ScannedJoin {
    pub image: Cancel,
    pub upscaled: UpscaledJoin,
    /// Whether to stop loading an animation.
    pub animation: bool,
    /// A file to remove in the end.
    pub remove: Option<String>,
}

/// The name of the file that a page is upscaled to.
pub open spec fn upscaled_name(index: usize) -> Seq<char> {
    decimal(index as nat) + "-upscaled.png"@
}

/// The name of the file that a page is upscaled to.
pub fn upscaled_file(index: usize) -> (s: String)
    ensures
        s@ == upscaled_name(index),
{
    let mut s = String::new();
    push_decimal(&mut s, index as u64);
    s.append("-upscaled.png");
    assert(s@ =~= upscaled_name(index));
    s
}

/// Where the pages of an archive are upscaled to, and to what.
#[derive(Debug)]
pub struct Upscales {
    pub temp_dir: String,
    pub target: Res,
    pub minimum: Option<Res>,
}

impl PageKind {
    /// Whether a page is the image that was found in a file.
    pub open spec fn is_image(
        self,
        ior: ImageOrRes,
        path: Seq<char>,
        index: usize,
        u: Upscales,
    ) -> bool {
        let state = match ior {
            ImageOrRes::Image(i) => ImageState::Loaded(i),
            ImageOrRes::Res(_) => ImageState::Unloaded,
        };
        let res = ior.spec_res();
        if is_upscaled(res, u.target, u.minimum) {
            &&& self matches PageKind::Image(r, s)
            &&& r.state == state
            &&& r.file_res == res
            &&& r.path@ == path
            &&& s.state matches UpscaledState::Unupscaled(e)
            &&& is_estimate(res, u.target, u.minimum, e)
            &&& s.original_res == res
            &&& s.original_path@ == path
            &&& s.path@ == inside(u.temp_dir@, upscaled_name(index))
        } else {
            &&& self matches PageKind::UnupscaledImage(r)
            &&& r.state == state
            &&& r.file_res == res
            &&& r.path@ == path
        }
    }

    fn new_image(ior: ImageOrRes, path: &str, index: usize, u: &Upscales) -> (r: Self)
        ensures
            r.is_image(ior, path@, index, *u),
    {
        let scale: bool = ior.should_upscale(u.target, u.minimum);
        let res = ior.res();
        let regular = RegularImage::new(ior, path.to_owned());
        if scale {
            let name = upscaled_file(index);
            let to = join_path(u.temp_dir.as_str(), name.as_str());
            PageKind::Image(
                regular,
                UpscaledImage::new(to, path.to_owned(), res, u.target, u.minimum),
            )
        } else {
            PageKind::UnupscaledImage(regular)
        }
    }
}

/// What a scanned page is: what the scan found, but an empty picture is none.
pub open spec fn scanned_as(
    p: ScannedPage,
    path: Seq<char>,
    index: usize,
    result: ScanResult,
    u: Upscales,
) -> bool {
    match result {
        ScanResult::ConvertedImage(to, ior) => {
            &&& p.converted_file == Some(to)
            &&& if ior.spec_res().spec_is_empty() {
                p.kind matches PageKind::Invalid(e) && e@ == "Empty image"@
            } else {
                p.kind.is_image(ior, to@, index, u)
            }
        },
        ScanResult::Image(ior) => {
            &&& p.converted_file is None
            &&& if ior.spec_res().spec_is_empty() {
                p.kind matches PageKind::Invalid(e) && e@ == "Empty image"@
            } else {
                p.kind.is_image(ior, path, index, u)
            }
        },
        ScanResult::Animation(res) => {
            &&& p.converted_file is None
            &&& if res.spec_is_empty() {
                p.kind matches PageKind::Invalid(e) && e@ == "Empty animation"@
            } else {
                &&& p.kind matches PageKind::Animation(a)
                &&& a.state is Unloaded
                &&& a.original_res == res
                &&& a.path@ == path
            }
        },
        ScanResult::Video => {
            &&& p.converted_file is None
            &&& p.kind matches PageKind::Video(v)
            &&& v.state is Unloaded
            &&& v.path@ == path
        },
        ScanResult::Invalid(e) => {
            &&& p.converted_file is None
            &&& p.kind == PageKind::Invalid(e)
        },
    }
}

impl ScannedPage {
    /// Whether a loaded animation has frames.
    pub open spec fn wf(self) -> bool {
        self.kind matches PageKind::Animation(a) ==> a.wf()
    }

    /// What is shown of the page.
    pub open spec fn shown(self, upscaling: bool) -> DisplayableView {
        match self.kind {
            PageKind::Image(r, u) => if upscaling {
                u.shown()
            } else {
                r.shown(None)
            },
            PageKind::UnupscaledImage(r) => r.shown(None),
            PageKind::Animation(a) => a.shown(),
            PageKind::Video(v) => v.shown(),
            PageKind::Invalid(e) => DisplayableView::Error(e@),
        }
    }

    /// Whether there is something to do for the page.
    pub open spec fn spec_has_work(self, work: Work) -> bool {
        !(work is Scan) && match self.kind {
            PageKind::Image(r, u) => if work.spec_upscale() {
                u.spec_has_work(work)
            } else {
                r.spec_has_work(work)
            },
            PageKind::UnupscaledImage(r) => r.spec_has_work(work),
            PageKind::Animation(a) => a.spec_has_work(work),
            PageKind::Video(_) | PageKind::Invalid(_) => false,
        }
    }

    /// Whether the page can be worked on.
    pub open spec fn can_do(self, work: Work) -> bool {
        match self.kind {
            PageKind::Image(r, u) => if work.spec_upscale() {
                u.can_do(work)
            } else {
                r.can_do(work)
            },
            PageKind::UnupscaledImage(r) => r.can_do(work),
            PageKind::Animation(a) => a.spec_has_work(work),
            PageKind::Video(_) | PageKind::Invalid(_) => false,
        }
    }

    /// What to do next for the page.
    pub open spec fn next_step(self, work: Work) -> ScannedStep {
        match self.kind {
            PageKind::Image(r, u) => if work.spec_upscale() {
                ScannedStep::Upscaled(u.next_step(work))
            } else {
                ScannedStep::Image(r.next_step(work))
            },
            PageKind::UnupscaledImage(r) => ScannedStep::Image(r.next_step(work)),
            PageKind::Animation(a) => ScannedStep::Animation(
                if a.state is Unloaded {
                    AnimationStep::StartLoading(work.spec_params()->0)
                } else {
                    AnimationStep::AwaitLoading
                },
            ),
            _ => ScannedStep::Image(ImageStep::AwaitLoading),
        }
    }

    /// The page once something was stopped.
    pub open spec fn after_step(self, work: Work) -> PageKind {
        match self.kind {
            PageKind::Image(r, u) => if work.spec_upscale() {
                match u.state {
                    UpscaledState::Upscaled(i) => if work.spec_params() is Some {
                        PageKind::Image(
                            r,
                            UpscaledImage {
                                state: UpscaledState::Upscaled(
                                    RegularImage { state: i.after_step(work), ..i },
                                ),
                                ..u
                            },
                        )
                    } else {
                        self.kind
                    },
                    _ => self.kind,
                }
            } else {
                PageKind::Image(RegularImage { state: r.after_step(work), ..r }, u)
            },
            PageKind::UnupscaledImage(r) => PageKind::UnupscaledImage(
                RegularImage { state: r.after_step(work), ..r },
            ),
            k => k,
        }
    }

    /// A page, by what a scan found it to be.
    pub fn new(path: &str, index: usize, result: ScanResult, u: &Upscales) -> (r: Self)
        ensures
            scanned_as(r, path@, index, result, *u),
            r.wf(),
    {
        match result {
            ScanResult::ConvertedImage(to, ior) => {
                let kind = if ior.res().is_empty() {
                    PageKind::Invalid("Empty image".to_owned())
                } else {
                    PageKind::new_image(ior, to.as_str(), index, u)
                };
                ScannedPage { kind, converted_file: Some(to) }
            },
            ScanResult::Image(ior) => {
                let kind = if ior.res().is_empty() {
                    PageKind::Invalid("Empty image".to_owned())
                } else {
                    PageKind::new_image(ior, path, index, u)
                };
                ScannedPage { kind, converted_file: None }
            },
            ScanResult::Animation(res) => {
                let kind = if res.is_empty() {
                    PageKind::Invalid("Empty animation".to_owned())
                } else {
                    PageKind::Animation(Animation::new(path.to_owned(), res))
                };
                ScannedPage { kind, converted_file: None }
            },
            ScanResult::Video => ScannedPage {
                kind: PageKind::Video(Video::new(path.to_owned())),
                converted_file: None,
            },
            ScanResult::Invalid(e) => ScannedPage {
                kind: PageKind::Invalid(e),
                converted_file: None,
            },
        }
    }

    /// What is shown of the page.
    pub fn get_displayable(&self, upscaling: bool) -> (r: Displayable)
        requires
            self.wf(),
        ensures
            r@ == self.shown(upscaling),
            r.wf(),
    {
        match &self.kind {
            PageKind::Image(r, u) => if upscaling {
                u.get_displayable()
            } else {
                r.get_displayable(None)
            },
            PageKind::UnupscaledImage(r) => r.get_displayable(None),
            PageKind::Animation(a) => a.get_displayable(),
            PageKind::Video(v) => v.get_displayable(),
            PageKind::Invalid(e) => Displayable::Error(e.clone()),
        }
    }

    /// Whether there is something to do for the page.
    pub fn has_work(&self, work: &Work) -> (r: bool)
        ensures
            r == self.spec_has_work(*work),
    {
        match work {
            Work::Finalize(..) | Work::Downscale(..) | Work::Load(..) | Work::Upscale => {},
            Work::Scan => return false,
        }
        match &self.kind {
            PageKind::Image(r, u) => if work.upscale() {
                u.has_work(work)
            } else {
                r.has_work(work)
            },
            PageKind::UnupscaledImage(r) => r.has_work(work),
            PageKind::Animation(a) => a.has_work(work),
            PageKind::Video(v) => v.has_work(work),
            PageKind::Invalid(_) => false,
        }
    }

    /// Finds out what to do next.
    pub fn do_work(&mut self, work: &Work) -> (r: ScannedStep)
        requires
            old(self).can_do(*work),
        ensures
            r == old(self).next_step(*work),
            final(self).kind == old(self).after_step(*work),
            final(self).converted_file == old(self).converted_file,
            old(self).wf() ==> final(self).wf(),
    {
        match &mut self.kind {
            PageKind::Image(r, u) => if work.upscale() {
                ScannedStep::Upscaled(u.do_work(work))
            } else {
                ScannedStep::Image(r.do_work(work))
            },
            PageKind::UnupscaledImage(r) => ScannedStep::Image(r.do_work(work)),
            PageKind::Animation(a) => ScannedStep::Animation(a.do_work(work)),
            PageKind::Video(_) | PageKind::Invalid(_) => ScannedStep::Image(ImageStep::AwaitLoading),
        }
    }

    /// What is going on for the page.
    pub open spec fn ongoing(self) -> Cancels {
        match self.kind {
            PageKind::Image(r, u) => Cancels {
                image: r.ongoing(),
                upscaled: u.ongoing(),
                animation: false,
            },
            PageKind::UnupscaledImage(r) => Cancels {
                image: r.ongoing(),
                upscaled: Cancel::Nothing,
                animation: false,
            },
            PageKind::Animation(a) => Cancels {
                image: Cancel::Nothing,
                upscaled: Cancel::Nothing,
                animation: a.state is Loading,
            },
            _ => Cancels { image: Cancel::Nothing, upscaled: Cancel::Nothing, animation: false },
        }
    }

    /// The page once it was let go of.
    pub open spec fn unloaded(self) -> PageKind {
        match self.kind {
            PageKind::Image(r, u) => PageKind::Image(
                RegularImage { state: r.unloaded(), ..r },
                UpscaledImage { state: u.unloaded(), ..u },
            ),
            PageKind::UnupscaledImage(r) => PageKind::UnupscaledImage(
                RegularImage { state: r.unloaded(), ..r },
            ),
            PageKind::Animation(a) => PageKind::Animation(Animation { state: a.unloaded(), ..a }),
            k => k,
        }
    }

    /// What to do for the upscaled file before the page goes away.
    pub open spec fn upscaled_join(self) -> UpscaledJoin {
        match self.kind {
            PageKind::Image(_, u) => match u.state {
                UpscaledState::Unupscaled(_) | UpscaledState::Failed(_) => UpscaledJoin::Nothing,
                UpscaledState::Upscaling(_) => UpscaledJoin::AwaitUpscaling,
                UpscaledState::Upscaled(i) => UpscaledJoin::Remove(i.ongoing()),
            },
            _ => UpscaledJoin::Nothing,
        }
    }

    /// What to do before the page goes away.
    pub fn join(self) -> (r: ScannedJoin)
        ensures
            r.image == self.ongoing().image,
            r.animation == self.ongoing().animation,
            r.remove == self.converted_file,
            r.upscaled == self.upscaled_join(),
    {
        let (image, upscaled, animation): (Cancel, UpscaledJoin, bool) = match &self.kind {
            PageKind::Image(r, u) => (r.join(), u.join(), false),
            PageKind::UnupscaledImage(r) => (r.join(), UpscaledJoin::Nothing, false),
            PageKind::Animation(a) => (Cancel::Nothing, UpscaledJoin::Nothing, a.join()),
            PageKind::Video(_) | PageKind::Invalid(_) => (
                Cancel::Nothing,
                UpscaledJoin::Nothing,
                false,
            ),
        };
        ScannedJoin { image, upscaled, animation, remove: self.converted_file }
    }

    /// Lets go of what was loaded, and says what to stop.
    pub fn unload(&mut self) -> (r: Cancels)
        ensures
            r == old(self).ongoing(),
            final(self).kind == old(self).unloaded(),
            final(self).converted_file == old(self).converted_file,
            old(self).wf() ==> final(self).wf(),
    {
        match &mut self.kind {
            PageKind::Image(r, u) => {
                let image = r.unload();
                let upscaled = u.unload();
                Cancels { image, upscaled, animation: false }
            },
            PageKind::UnupscaledImage(r) => {
                let image = r.unload();
                Cancels { image, upscaled: Cancel::Nothing, animation: false }
            },
            PageKind::Animation(a) => {
                let animation: bool = a.unload();
                Cancels { image: Cancel::Nothing, upscaled: Cancel::Nothing, animation }
            },
            PageKind::Video(_) | PageKind::Invalid(_) => Cancels {
                image: Cancel::Nothing,
                upscaled: Cancel::Nothing,
                animation: false,
            },
        }
    }
}

/// A page can be worked on wherever there is something to do.
pub proof fn law_work_can_be_done(p: ScannedPage, work: Work)
    requires
        p.spec_has_work(work),
    ensures
        p.can_do(work),
{
}

/// Letting go of a page stops all that goes on for it but upscaling.
pub proof fn law_unloaded_is_idle(p: ScannedPage, q: ScannedPage)
    requires
        q.kind == p.unloaded(),
    ensures
        q.ongoing() == (Cancels {
            image: Cancel::Nothing,
            upscaled: Cancel::Nothing,
            animation: false,
        }),
{
}

} // verus!

//! What holds of pages whatever they are: when work on them is done, what is started and stopped, and
//! what is shown of them in the meantime.
use vstd::prelude::*;

use crate::com::displayable::{DisplayableView, MaybeLayoutRes};
use crate::com::res::Res;
use crate::manager::page::animation::{Animation, AnimationState, AnimationStep};
use crate::manager::page::page::{Page, PageState, PageStep};
use crate::manager::page::regular_image::{ImageState, ImageStep, RegularImage};
use crate::manager::page::scanned::{
    scanned_as, upscaled_name, PageKind, ScannedPage, ScannedStep, Upscales,
};
use crate::manager::page::upscaled_image::{UpscaledImage, UpscaledState};
use crate::manager::page::video::{Video, VideoState};
use crate::manager::work::{Work, WorkParams};
use crate::number::{decimal, lemma_decimal_round_trip};
use crate::pools::loading::{ImageOrRes, ScanResult};

verus! {

/// Whether an image is there in the size that it is shown in.
pub open spec fn in_right_size(i: RegularImage, p: WorkParams) -> bool {
    match i.state {
        ImageState::Loaded(x) => x.0.res == i.file_res.fitted(p.target_res),
        ImageState::Scaled(x) => x.res == i.file_res.fitted(p.target_res),
        _ => false,
    }
}

/// Whether an image is there in any size.
pub open spec fn has_pixels(i: RegularImage) -> bool {
    i.state is Loaded || i.state is Scaled || i.state is Scaling || i.state is Reloading
}

/// An image is finished once it is there in the size that it is shown in, and nothing is left to do
/// that can be done for one that failed. To start scaling it down is done once it is being scaled to
/// that size, and to start loading it once it is being loaded. Nothing else is done for an image.
pub proof fn law_when_images_are_done(i: RegularImage, upscaling: bool, p: WorkParams)
    ensures
        i.spec_has_work(Work::Finalize(upscaling, p)) <==> !(i.state is Failed) && !in_right_size(
            i,
            p,
        ),
        i.spec_has_work(Work::Downscale(upscaling, p)) <==> !(i.state is Failed) && !in_right_size(
            i,
            p,
        ) && !(i.state matches ImageState::Scaling(f, _) && i.file_res.fitted(
            f.extra_info.target_res,
        ) == i.file_res.fitted(p.target_res)),
        i.spec_has_work(Work::Load(upscaling, p)) <==> i.state is Unloaded || i.state is Scaled
            && !in_right_size(i, p),
        !i.spec_has_work(Work::Upscale),
        !i.spec_has_work(Work::Scan),
{
}

/// A file is loaded where no pixels of its own size are there, and an image is scaled down once they
/// are. Both go to what the work asks for. What is under way is waited for.
pub proof fn law_steps_of_images(i: RegularImage, work: Work)
    requires
        i.can_do(work),
    ensures
        i.next_step(work) is StartLoading <==> i.state is Unloaded || i.state is Scaled,
        i.next_step(work) is StartScaling <==> i.state is Loaded,
        i.next_step(work) matches ImageStep::StartLoading(t) ==> Some(t) == work.spec_params(),
        i.next_step(work) matches ImageStep::StartScaling(t) ==> Some(t) == work.spec_params(),
        i.next_step(work) is AwaitLoading ==> i.ongoing() is Loading,
        i.next_step(work) is CancelLoading ==> i.ongoing() is Loading,
        i.next_step(work) is AwaitScaling ==> i.ongoing() is Scaling,
        i.next_step(work) is CancelScaling ==> i.ongoing() is Scaling,
        i.state is Loading ==> i.next_step(work) is AwaitLoading,
{
}

/// Loading a file again is stopped only if the image that is there is right after all. Scaling is
/// stopped if it goes to another size than is wanted, or the image is right as it is.
pub proof fn law_what_is_stopped(i: RegularImage, work: Work, p: WorkParams)
    requires
        i.can_do(work),
        work.spec_params() == Some(p),
    ensures
        i.state matches ImageState::Reloading(_, x) ==> (i.next_step(work) is CancelLoading <==> x.res
            == i.file_res.fitted(p.target_res)),
        i.state matches ImageState::Scaling(f, x) ==> (i.next_step(work) is CancelScaling <==> x.0.res
            == i.file_res.fitted(p.target_res) || i.file_res.fitted(f.extra_info.target_res)
            != i.file_res.fitted(p.target_res)),
        i.state matches ImageState::Reloading(_, x) ==> (i.next_step(work) is CancelLoading
            ==> i.after_step(work) == ImageState::Scaled(x)),
        i.state matches ImageState::Scaling(_, x) ==> (i.next_step(work) is CancelScaling
            ==> i.after_step(work) == ImageState::Loaded(x)),
        !(i.next_step(work) is CancelLoading) && !(i.next_step(work) is CancelScaling)
            ==> i.after_step(work) == i.state,
{
}

/// An image is laid out by the resolution of its file, in whatever size it is there. It can be seen as
/// soon as there are pixels of any size.
pub proof fn law_images_are_laid_out_by_their_file(i: RegularImage, original: Option<Res>)
    ensures
        !(i.state is Failed) ==> i.shown(original).res() == Some(i.file_res),
        i.state is Failed ==> i.shown(original).layout() is Incompatible,
        has_pixels(i) <==> i.shown(original) is Image,
        i.state matches ImageState::Failed(e) ==> i.shown(original) == DisplayableView::Error(e@),
        match i.shown(original) {
            DisplayableView::Image(x) => x.file_res == i.file_res && x.original_res
                == match original {
                Some(r) => r,
                None => i.file_res,
            } && match i.state {
                ImageState::Loaded(y) => x.img == y.0,
                ImageState::Scaled(y) => x.img == y,
                ImageState::Scaling(_, y) => x.img == y.0,
                ImageState::Reloading(_, y) => x.img == y,
                _ => false,
            },
            DisplayableView::Loading { file_res, original_res } => file_res == i.file_res
                && original_res == match original {
                Some(r) => r,
                None => i.file_res,
            },
            _ => i.state is Failed,
        },
{
}

/// Letting go of an image leaves no pixels, and stops what goes on for it. An image that failed is not
/// tried again.
pub proof fn law_no_pixels_are_left(i: RegularImage, j: RegularImage)
    requires
        j.state == i.unloaded(),
    ensures
        !has_pixels(j),
        j.ongoing() is Nothing,
        i.state is Failed <==> j.state is Failed,
        i.ongoing() is Loading <==> i.state is Loading || i.state is Reloading,
        i.ongoing() is Scaling <==> i.state is Scaling,
{
}

/// An image is upscaled first, and only by work that upscales. Then its file is loaded and scaled like
/// any other one. The file stays when the image is let go of.
pub proof fn law_upscaling_comes_first(u: UpscaledImage, work: Work)
    ensures
        u.spec_has_work(work) ==> work.spec_upscale(),
        work.spec_upscale() && u.state is Unupscaled ==> u.spec_has_work(work) && u.next_step(work)
            is StartUpscaling,
        u.next_step(work) is StartUpscaling <==> u.state is Unupscaled,
        u.next_step(work) is AwaitUpscaling <==> u.state is Upscaling,
        u.state is Upscaling && u.spec_has_work(work) ==> !(work is Upscale),
        work is Upscale && u.state is Upscaled ==> !u.spec_has_work(work),
        u.state matches UpscaledState::Upscaled(r) ==> (u.spec_has_work(work)
            <==> work.spec_upscale() && r.spec_has_work(work)),
        u.state is Failed ==> !u.spec_has_work(work),
        u.state is Upscaled <==> u.unloaded() is Upscaled,
        u.state is Unupscaled ==> u.unloaded() == u.state,
        u.state is Upscaling ==> u.unloaded() == u.state,
{
}

/// An upscaled image is laid out by what is expected of it until its file is there, and by the
/// resolution of that file then. Its own resolution is told all the while.
pub proof fn law_upscaled_images_are_laid_out(u: UpscaledImage)
    ensures
        u.state matches UpscaledState::Unupscaled(e) ==> u.shown().res() == Some(e),
        u.state matches UpscaledState::Upscaling(e) ==> u.shown().res() == Some(e),
        u.state matches UpscaledState::Upscaled(r) ==> (!(r.state is Failed) ==> u.shown().res()
            == Some(r.file_res)),
        u.shown() matches DisplayableView::Image(x) ==> x.original_res == u.original_res,
        u.shown() matches DisplayableView::Loading { original_res, .. } ==> original_res
            == u.original_res,
{
}

/// In upscaling mode the upscaled image is shown of a page that has one, and otherwise the image
/// itself. A page without one is shown alike in both.
pub proof fn law_what_is_shown_of_pages(p: ScannedPage)
    ensures
        p.kind matches PageKind::Image(r, u) ==> p.shown(true) == u.shown() && p.shown(false)
            == r.shown(None),
        !(p.kind is Image) ==> p.shown(true) == p.shown(false),
        p.kind matches PageKind::UnupscaledImage(r) ==> p.shown(true) == r.shown(None),
        p.kind matches PageKind::Invalid(e) ==> p.shown(true) == DisplayableView::Error(e@),
        p.kind matches PageKind::Video(v) ==> p.shown(true) == v.shown(),
        p.kind matches PageKind::Animation(a) ==> p.shown(true) == a.shown(),
{
}

/// Work for a page is work for what is shown of it: that which upscales is done for the upscaled image,
/// and the rest for the image itself. Once a page is scanned, there is nothing more to scan, and
/// nothing to do for a video or something invalid.
pub proof fn law_work_is_for_what_is_shown(p: ScannedPage, work: Work)
    ensures
        !p.spec_has_work(Work::Scan),
        p.kind is Video || p.kind is Invalid ==> !p.spec_has_work(work),
        p.kind matches PageKind::Image(r, u) ==> (work.spec_upscale() && !(work is Scan) ==> (
        p.spec_has_work(work) <==> u.spec_has_work(work)) && p.next_step(work)
            == ScannedStep::Upscaled(u.next_step(work))),
        p.kind matches PageKind::Image(r, u) ==> (!work.spec_upscale() && !(work is Scan) ==> (
        p.spec_has_work(work) <==> r.spec_has_work(work)) && p.next_step(work)
            == ScannedStep::Image(r.next_step(work))),
        p.kind matches PageKind::UnupscaledImage(r) ==> (p.spec_has_work(work)
            <==> r.spec_has_work(work)) && p.next_step(work) == ScannedStep::Image(
            r.next_step(work),
        ),
        p.kind matches PageKind::Animation(a) ==> (p.spec_has_work(work) ==> !(work is Upscale) && (
        p.next_step(work) matches ScannedStep::Animation(AnimationStep::StartLoading(_))
            <==> a.state is Unloaded)),
{
}

/// A page is extracted, then scanned, and then worked on by what it turned out to be. The image is kept
/// from the scan unless the upscaled one is wanted. A page that failed is left alone.
pub proof fn law_stages_of_pages(p: Page, work: Work)
    ensures
        p.next_step(work) is AwaitExtraction <==> p.state is Extracting,
        p.next_step(work) is StartScanning <==> p.state is Unscanned,
        p.next_step(work) is Scanned <==> p.state is Scanned,
        p.next_step(work) matches PageStep::StartScanning(keep) ==> (keep <==> !work.spec_upscale()),
        p.state is Extracting || p.state is Unscanned ==> p.spec_has_work(work),
        p.state is Scanning ==> (p.spec_has_work(work) <==> !(work is Scan)),
        p.state is Failed ==> !p.spec_has_work(work),
        p.state matches PageState::Scanned(s) ==> (p.spec_has_work(work) <==> s.spec_has_work(
            work,
        )),
{
}

/// A page goes before others that wait to be extracted if the work asks for that, and only once.
pub proof fn law_pages_go_first_once(p: Page, work: Work)
    ensures
        p.jumps(work) ==> p.state == PageState::Extracting(true),
        p.state == PageState::Extracting(true) ==> (p.jumps(work) <==> match work {
            Work::Finalize(_, t) | Work::Downscale(_, t) | Work::Load(_, t) => t.extract_early,
            _ => false,
        }),
        p.state == PageState::Extracting(false) ==> !p.jumps(work),
{
}

/// Nothing is known of a page until it is scanned. An error is shown in its own words.
pub proof fn law_what_is_known_of_pages(p: Page, upscaling: bool)
    ensures
        p.state is Extracting || p.state is Unscanned || p.state is Scanning ==> p.shown(upscaling)
            is Pending && p.shown(upscaling).layout() == MaybeLayoutRes::Unknown,
        p.state matches PageState::Failed(e) ==> p.shown(upscaling) == DisplayableView::Error(e@),
        p.state matches PageState::Scanned(s) ==> p.shown(upscaling) == s.shown(upscaling),
{
}

/// Programs are told the number of a page, which counts from one, and its path in the archive. They are
/// told of its file only if that is there.
pub proof fn law_variables_of_pages(p: Page)
    ensures
        p.env().contains(("AWMAN_PAGE_NUMBER"@, decimal((p.index + 1) as nat))),
        p.env().contains(("AWMAN_RELATIVE_FILE_PATH"@, p.rel_path@)),
        p.state is Unscanned || p.state is Scanning || p.state is Scanned ==> p.env().contains(
            ("AWMAN_CURRENT_FILE"@, p.absolute_path()),
        ),
        p.state is Extracting || p.state is Failed ==> p.env().len() == 2,
{
    let v = p.env();
    assert(v[0].0 == "AWMAN_PAGE_NUMBER"@);
    assert(v[1].0 == "AWMAN_RELATIVE_FILE_PATH"@);
    if p.has_file() {
        assert(v[2].0 == "AWMAN_CURRENT_FILE"@);
    }
}

/// What each kind of work asks for: all but scanning and upscaling asks for an image, only the first two
/// for one that is scaled down, and upscaling is asked for by the work for it, and by the rest as the
/// mode says.
pub proof fn law_what_work_asks_for(upscaling: bool, p: WorkParams)
    ensures
        Work::Finalize(upscaling, p).downscales(),
        Work::Downscale(upscaling, p).downscales(),
        !Work::Load(upscaling, p).downscales(),
        !Work::Upscale.downscales(),
        !Work::Scan.downscales(),
        Work::Finalize(upscaling, p).spec_params() == Some(p),
        Work::Downscale(upscaling, p).spec_params() == Some(p),
        Work::Load(upscaling, p).spec_params() == Some(p),
        Work::Upscale.spec_params() is None,
        Work::Scan.spec_params() is None,
        Work::Finalize(upscaling, p).spec_upscale() == upscaling,
        Work::Downscale(upscaling, p).spec_upscale() == upscaling,
        Work::Load(upscaling, p).spec_upscale() == upscaling,
        Work::Upscale.spec_upscale(),
        !Work::Scan.spec_upscale(),
{
}

/// A page is what was found in its file, of the size that was found, and with the image if it is
/// there. A picture without any pixels is none.
pub proof fn law_pages_are_what_was_found(
    p: ScannedPage,
    path: Seq<char>,
    index: usize,
    result: ScanResult,
    u: Upscales,
)
    requires
        scanned_as(p, path, index, result, u),
    ensures
        result is Video <==> p.kind is Video,
        result matches ScanResult::Invalid(e) ==> p.kind == PageKind::Invalid(e),
        result matches ScanResult::Animation(r) ==> if r.w == 0 || r.h == 0 {
            p.kind is Invalid
        } else {
            p.kind matches PageKind::Animation(a) && a.original_res == r && a.path@ == path
        },
        result matches ScanResult::Image(i) ==> {
            &&& p.converted_file is None
            &&& i.spec_res().w == 0 || i.spec_res().h == 0 ==> p.kind is Invalid
            &&& i.spec_res().w > 0 && i.spec_res().h > 0 ==> {
                ||| p.kind matches PageKind::Image(r, s) && r.file_res == i.spec_res() && r.path@
                    == path && s.original_res == i.spec_res() && (r.state is Loaded <==> i is Image)
                ||| p.kind matches PageKind::UnupscaledImage(r) && r.file_res == i.spec_res()
                    && r.path@ == path && (r.state is Loaded <==> i is Image)
            }
        },
        result matches ScanResult::ConvertedImage(to, i) ==> {
            &&& p.converted_file == Some(to)
            &&& i.spec_res().w == 0 || i.spec_res().h == 0 ==> p.kind is Invalid
            &&& i.spec_res().w > 0 && i.spec_res().h > 0 ==> {
                ||| p.kind matches PageKind::Image(r, _) && r.path@ == to@
                ||| p.kind matches PageKind::UnupscaledImage(r) && r.path@ == to@
            }
        },
{
}

/// Pages are upscaled to a file of their own, each under its number.
pub proof fn law_files_of_upscaled_pages(i: usize, j: usize)
    ensures
        upscaled_name(i) == decimal(i as nat) + "-upscaled.png"@,
        upscaled_name(i) == upscaled_name(j) ==> i == j,
{
    if upscaled_name(i) == upscaled_name(j) {
        lemma_decimal_round_trip(i as nat, usize::MAX as nat);
        lemma_decimal_round_trip(j as nat, usize::MAX as nat);
        let a = upscaled_name(i);
        let b = upscaled_name(j);
        assert(a.take(decimal(i as nat).len() as int) =~= decimal(i as nat));
        assert(b.take(decimal(j as nat).len() as int) =~= decimal(j as nat));
    }
}

/// Before a page goes away, its upscaling is waited for while it goes on, and its upscaled file is
/// removed if there is one.
pub proof fn law_upscaled_files_are_removed(p: ScannedPage)
    ensures
        !(p.kind is Image) ==> p.upscaled_join() is Nothing,
        p.kind matches PageKind::Image(_, u) ==> {
            &&& p.upscaled_join() is AwaitUpscaling <==> u.state is Upscaling
            &&& p.upscaled_join() is Remove <==> u.state is Upscaled
        },
{
}

/// What is found out of a page that was let go of is all but its pixels.
pub proof fn law_no_pixels_are_kept(result: ScanResult)
    ensures
        result.unloaded() is Image <==> result is Image,
        result.unloaded() is ConvertedImage <==> result is ConvertedImage,
        result is Animation || result is Video || result is Invalid ==> result.unloaded()
            == result,
        result matches ScanResult::Image(i) ==> result.unloaded() == ScanResult::Image(
            ImageOrRes::Res(i.spec_res()),
        ),
        result matches ScanResult::ConvertedImage(to, i) ==> result.unloaded()
            == ScanResult::ConvertedImage(to, ImageOrRes::Res(i.spec_res())),
{
}

/// An image has the resolution that is told where it is not there.
pub proof fn law_resolution_is_that_of_the_image(i: ImageOrRes)
    ensures
        i matches ImageOrRes::Image(x) ==> i.spec_res() == x.0.res,
        i matches ImageOrRes::Res(r) ==> i.spec_res() == r,
        i.unloaded().spec_res() == i.spec_res(),
{
}

/// An animation is loaded anew unless it could not be, and what was started for one is waited for.
pub proof fn law_stages_of_animations(p: ScannedPage, a: Animation, work: Work, params: WorkParams)
    requires
        p.kind == PageKind::Animation(a),
        work.spec_params() == Some(params),
    ensures
        a.state is Unloaded ==> p.next_step(work) == ScannedStep::Animation(
            AnimationStep::StartLoading(params),
        ),
        a.state is Loading ==> p.next_step(work) == ScannedStep::Animation(
            AnimationStep::AwaitLoading,
        ),
        a.state is Loading || a.state is Loaded ==> a.unloaded() is Unloaded,
        a.state is Failed || a.state is Unloaded ==> a.unloaded() == a.state,
        p.unloaded() == PageKind::Animation(Animation { state: a.unloaded(), ..a }),
        a.state is Loading ==> (p.spec_has_work(work) <==> work is Finalize),
        a.state is Loaded || a.state is Failed ==> !p.spec_has_work(work),
        a.state is Unloaded ==> p.spec_has_work(work),
{
}

/// Until it is loaded an animation takes up the space of its frames, and then it is shown. What is
/// wrong with it is said instead.
pub proof fn law_what_is_shown_of_animations(a: Animation)
    ensures
        a.state is Unloaded || a.state is Loading ==> a.shown() == (DisplayableView::Loading {
            file_res: a.original_res,
            original_res: a.original_res,
        }),
        a.state matches AnimationState::Loaded(x) ==> a.shown() == DisplayableView::Animation(x),
        a.state matches AnimationState::Failed(e) ==> a.shown() == DisplayableView::Error(e@),
{
}

/// What goes on for a page that was scanned is all that goes on for its image, for the upscaled one
/// and for its animation.
pub proof fn law_what_goes_on_for_scanned_pages(p: ScannedPage)
    ensures
        p.ongoing().animation <==> (p.kind matches PageKind::Animation(a) && a.state is Loading),
        match p.kind {
            PageKind::Image(r, _) => p.ongoing().image == r.ongoing(),
            PageKind::UnupscaledImage(r) => p.ongoing().image == r.ongoing(),
            _ => p.ongoing().image is Nothing,
        },
        p.kind matches PageKind::Image(_, u) ==> match u.state {
            UpscaledState::Upscaled(r) => p.ongoing().upscaled == r.ongoing(),
            _ => p.ongoing().upscaled is Nothing,
        },
        !(p.kind is Image) ==> p.ongoing().upscaled is Nothing,
{
}

/// A video is shown by its path, unless something is wrong with it.
pub proof fn law_what_is_shown_of_videos(v: Video)
    ensures
        v.state is Unloaded ==> v.shown() == DisplayableView::Video(v.path@),
        v.state matches VideoState::Failed(e) ==> v.shown() == DisplayableView::Error(e@),
{
}

/// Whatever a page is, it is let go of in the same way, and stays what it is.
pub proof fn law_pages_stay_what_they_are(p: ScannedPage)
    ensures
        match (p.kind, p.unloaded()) {
            (PageKind::Image(r, u), PageKind::Image(s, w)) => {
                &&& s.state == r.unloaded()
                &&& s.file_res == r.file_res
                &&& s.path == r.path
                &&& w.original_res == u.original_res
                &&& w.path == u.path
                &&& u.state is Upscaled <==> w.state is Upscaled
            },
            (PageKind::UnupscaledImage(r), PageKind::UnupscaledImage(s)) => {
                &&& s.state == r.unloaded()
                &&& s.file_res == r.file_res
                &&& s.path == r.path
            },
            (PageKind::Animation(a), PageKind::Animation(b)) => b.original_res == a.original_res
                && b.path == a.path,
            (PageKind::Video(_), k) => k == p.kind,
            (PageKind::Invalid(_), k) => k == p.kind,
            _ => false,
        },
{
}

} // verus!

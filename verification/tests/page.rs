use aw_man::com::displayable::Displayable;
use aw_man::com::frames::AnimatedImage;
use aw_man::com::image::{Image, ImageData};
use aw_man::com::mode::Fit;
use aw_man::com::res::{Res, TargetRes};
use aw_man::manager::page::animation::AnimationStep;
use aw_man::manager::page::page::{Page, PageJoin, PageState, PageStep};
use aw_man::manager::page::regular_image::{Cancel, ImageState, ImageStep, RegularImage};
use aw_man::manager::page::scanned::{PageKind, ScannedStep, Upscales};
use aw_man::manager::page::upscaled_image::{UpscaledJoin, UpscaledStep};
use aw_man::manager::work::{Completion, Work, WorkParams};
use aw_man::pools::loading::{ImageOrRes, ScanResult, UnscaledImage};

fn res(w: u32, h: u32) -> Res {
    Res { w, h }
}

fn params(w: u32, h: u32) -> WorkParams {
    WorkParams {
        park_before_scale: false,
        jump_downscaling_queue: false,
        extract_early: false,
        target_res: TargetRes { res: res(w, h), fit: Fit::Container, half_width: false },
    }
}

fn image(w: u32, h: u32, serial: u64) -> Image {
    Image::from_data(ImageData::Grey(vec![0; (w * h) as usize]), res(w, h), serial)
}

fn upscales() -> Upscales {
    Upscales { temp_dir: "/tmp/x".to_string(), target: res(1000, 1000), minimum: None }
}

fn no_upscales() -> Upscales {
    Upscales { temp_dir: "/tmp/x".to_string(), target: res(0, 0), minimum: None }
}

#[test]
fn stages_of_work() {
    let p = params(10, 10);
    for w in [Work::Finalize(false, p), Work::Downscale(false, p), Work::Load(false, p)] {
        assert!(w.load() && !w.upscale());
        assert_eq!(w.params(), Some(p));
    }
    assert!(Work::Finalize(false, p).finalize() && !Work::Downscale(false, p).finalize());
    assert!(Work::Downscale(false, p).downscale() && !Work::Load(false, p).downscale());
    assert!(Work::Upscale.upscale() && Work::Load(true, p).upscale());
    assert!(!Work::Scan.load() && !Work::Scan.upscale());
    assert_eq!(Work::Scan.params(), None);
}

#[test]
fn images_are_loaded_and_scaled() {
    let p = params(10, 10);
    let mut i = RegularImage::new(ImageOrRes::Res(res(20, 20)), "/a.png".to_string());
    let w = Work::Finalize(false, p);
    assert!(i.has_work(&w));
    assert_eq!(i.do_work(&w), ImageStep::StartLoading(p));
    i.loading_started(p);
    assert_eq!(i.do_work(&w), ImageStep::AwaitLoading);
    i.loading_finished(Ok(UnscaledImage(image(20, 20, 1))));
    assert_eq!(i.do_work(&w), ImageStep::StartScaling(p));
    i.scaling_started(p);
    assert_eq!(i.do_work(&w), ImageStep::AwaitScaling);
    i.scaling_finished(Ok(image(10, 10, 2)));
    assert!(!i.has_work(&w));
    assert!(matches!(i.get_displayable(None), Displayable::Image(d) if d.img.serial == 2));
}

#[test]
fn images_of_the_right_size_are_done() {
    let p = params(100, 100);
    let mut i = RegularImage::new(ImageOrRes::Res(res(20, 20)), "/a.png".to_string());
    i.loading_started(p);
    i.loading_finished(Ok(UnscaledImage(image(20, 20, 1))));
    assert!(!i.has_work(&Work::Finalize(false, p)));
}

#[test]
fn images_are_loaded_again_for_another_size() {
    let mut i = RegularImage::new(ImageOrRes::Res(res(20, 20)), "/a.png".to_string());
    i.loading_started(params(10, 10));
    i.loading_finished(Ok(UnscaledImage(image(20, 20, 1))));
    i.scaling_started(params(10, 10));
    i.scaling_finished(Ok(image(10, 10, 2)));
    let w = Work::Finalize(false, params(15, 15));
    assert!(i.has_work(&w));
    assert_eq!(i.do_work(&w), ImageStep::StartLoading(params(15, 15)));
    i.loading_started(params(15, 15));
    assert!(matches!(i.state, ImageState::Reloading(..)));
    assert!(matches!(i.get_displayable(None), Displayable::Image(d) if d.img.serial == 2));
}

#[test]
fn failures_are_shown() {
    let mut i = RegularImage::new(ImageOrRes::Res(res(20, 20)), "/a.png".to_string());
    i.loading_started(params(10, 10));
    i.loading_finished(Err("broken".to_string()));
    assert!(!i.has_work(&Work::Finalize(false, params(10, 10))));
    assert!(matches!(i.get_displayable(None), Displayable::Error(e) if e == "broken"));
}

#[test]
fn unloading_stops_what_goes_on() {
    let mut i = RegularImage::new(ImageOrRes::Res(res(20, 20)), "/a.png".to_string());
    assert_eq!(i.unload(), Cancel::Nothing);
    i.loading_started(params(10, 10));
    assert_eq!(i.join(), Cancel::Loading);
    assert_eq!(i.unload(), Cancel::Loading);
    assert_eq!(i.unload(), Cancel::Nothing);
    i.loading_started(params(10, 10));
    i.loading_finished(Ok(UnscaledImage(image(20, 20, 1))));
    i.scaling_started(params(10, 10));
    assert_eq!(i.unload(), Cancel::Scaling);
    assert!(matches!(i.state, ImageState::Unloaded));
}

fn scanned(result: ScanResult, u: &Upscales) -> Page {
    let mut p = Page::new_original("/d/a.png".to_string(), "a.png".to_string(), "a.png".to_string(), 3);
    p.scanning_started();
    p.scanning_finished(result, u);
    p
}

fn kind(p: &Page) -> &PageKind {
    match &p.state {
        PageState::Scanned(s) => &s.kind,
        other => panic!("{other:?}"),
    }
}

#[test]
fn kinds_of_pages() {
    let r = || ScanResult::Image(ImageOrRes::Res(res(20, 20)));
    assert!(matches!(kind(&scanned(r(), &upscales())), PageKind::Image(..)));
    assert!(matches!(kind(&scanned(r(), &no_upscales())), PageKind::UnupscaledImage(_)));
    assert!(matches!(kind(&scanned(ScanResult::Animation(res(2, 2)), &upscales())), PageKind::Animation(_)));
    assert!(matches!(kind(&scanned(ScanResult::Video, &upscales())), PageKind::Video(_)));
    let bad = scanned(ScanResult::Invalid("no".to_string()), &upscales());
    assert!(matches!(kind(&bad), PageKind::Invalid(e) if e == "no"));
    assert!(matches!(bad.get_displayable(false), Displayable::Error(e) if e == "no"));
}

#[test]
fn pages_are_scanned_first() {
    let mut p = Page::new_original("/d/a.png".to_string(), "a.png".to_string(), "a.png".to_string(), 0);
    assert!(matches!(p.get_displayable(false), Displayable::Pending));
    assert!(p.has_work(&Work::Scan));
    assert_eq!(p.do_work(&Work::Scan), (false, PageStep::StartScanning(true)));
    assert_eq!(Page::completion(PageStep::StartScanning(false)), Completion::StartScan);
    p.scanning_started();
    assert!(!p.has_work(&Work::Scan));
    let w = Work::Finalize(false, params(10, 10));
    assert_eq!(p.do_work(&w), (false, PageStep::AwaitScanning));
    p.scanning_finished(ScanResult::Image(ImageOrRes::Res(res(20, 20))), &no_upscales());
    assert_eq!(
        p.do_work(&w),
        (false, PageStep::Scanned(ScannedStep::Image(ImageStep::StartLoading(params(10, 10)))))
    );
}

#[test]
fn pages_are_extracted_first() {
    let mut p = Page::new_extracted("/tmp/0.png".to_string(), "a.png".to_string(), "a.png".to_string(), 0);
    let mut early = params(10, 10);
    early.extract_early = true;
    let w = Work::Finalize(false, early);
    assert_eq!(p.do_work(&w), (true, PageStep::AwaitExtraction));
    assert_eq!(p.do_work(&w), (false, PageStep::AwaitExtraction));
    p.extraction_finished(true);
    assert!(matches!(p.state, PageState::Unscanned));
    let mut q = Page::new_extracted("/tmp/0.png".to_string(), "a.png".to_string(), "a.png".to_string(), 0);
    q.extraction_finished(false);
    assert!(matches!(q.state, PageState::Failed(_)));
    assert!(!q.has_work(&w));
}

#[test]
fn upscaled_pages() {
    let mut p = scanned(ScanResult::Image(ImageOrRes::Res(res(20, 20))), &upscales());
    let w = Work::Finalize(true, params(10, 10));
    assert_eq!(
        p.do_work(&w).1,
        PageStep::Scanned(ScannedStep::Upscaled(UpscaledStep::StartUpscaling))
    );
    match &mut p.state {
        PageState::Scanned(s) => match &mut s.kind {
            PageKind::Image(_, u) => {
                assert_eq!(u.path, "/tmp/x/3-upscaled.png");
                assert_eq!(u.join(), UpscaledJoin::Nothing);
                u.upscaling_started();
                assert_eq!(u.join(), UpscaledJoin::AwaitUpscaling);
                u.upscaling_finished(Ok(res(1280, 1280)));
                assert_eq!(u.join(), UpscaledJoin::Remove(Cancel::Nothing));
            }
            other => panic!("{other:?}"),
        },
        other => panic!("{other:?}"),
    }
    assert_eq!(
        p.do_work(&w).1,
        PageStep::Scanned(ScannedStep::Upscaled(UpscaledStep::Image(ImageStep::StartLoading(
            params(10, 10)
        ))))
    );
}

#[test]
fn animations_are_loaded() {
    let mut p = scanned(ScanResult::Animation(res(2, 2)), &upscales());
    let w = Work::Load(false, params(10, 10));
    assert_eq!(
        p.do_work(&w).1,
        PageStep::Scanned(ScannedStep::Animation(AnimationStep::StartLoading(params(10, 10))))
    );
    match &mut p.state {
        PageState::Scanned(s) => match &mut s.kind {
            PageKind::Animation(a) => {
                a.loading_started(params(10, 10));
                assert!(a.join());
                a.loading_finished(Ok(AnimatedImage::new(vec![(image(2, 2, 1), 5, 1)], 9)));
                assert!(!a.unload());
            }
            other => panic!("{other:?}"),
        },
        other => panic!("{other:?}"),
    }
}

#[test]
fn unloaded_pages_are_laid_out_as_before() {
    let mut p = scanned(ScanResult::Image(ImageOrRes::Image(UnscaledImage(image(20, 30, 1)))), &no_upscales());
    let before = p.get_displayable(false).layout().res();
    assert_eq!(before, Some(res(20, 30)));
    p.unload();
    assert_eq!(p.get_displayable(false).layout().res(), before);
    let c = p.unload().unwrap();
    assert_eq!((c.image, c.upscaled, c.animation), (Cancel::Nothing, Cancel::Nothing, false));
}

#[test]
fn pages_tell_programs_of_themselves() {
    let p = scanned(ScanResult::Video, &upscales());
    let pair = |a: &str, b: &str| (a.to_string(), b.to_string());
    assert_eq!(
        p.get_env(),
        vec![
            pair("AWMAN_PAGE_NUMBER", "4"),
            pair("AWMAN_RELATIVE_FILE_PATH", "a.png"),
            pair("AWMAN_CURRENT_FILE", "/d/a.png"),
        ]
    );
    let i = p.page_info();
    assert_eq!((i.path.as_str(), i.index, i.abs_path.as_deref()), ("a.png", 4, Some("/d/a.png")));
}

#[test]
fn extracted_files_are_removed() {
    let mut p = Page::new_extracted("/tmp/0.png".to_string(), "a.png".to_string(), "a.png".to_string(), 0);
    p.extraction_finished(true);
    assert_eq!(p.file_to_remove(true), Some("/tmp/0.png".to_string()));
    let q = Page::new_original("/d/a.png".to_string(), "a.png".to_string(), "a.png".to_string(), 0);
    assert_eq!(q.file_to_remove(true), None);
    assert!(matches!(q.join(), PageJoin::Nothing));
    let mut s = Page::new_original("/d/a.png".to_string(), "a.png".to_string(), "a.png".to_string(), 0);
    s.scanning_started();
    assert!(matches!(s.join(), PageJoin::AwaitScanning));
    let c = scanned(
        ScanResult::ConvertedImage("/tmp/x/3c.png".to_string(), ImageOrRes::Res(res(2, 2))),
        &no_upscales(),
    );
    assert!(matches!(c.join(), PageJoin::Scanned(j) if j.remove == Some("/tmp/x/3c.png".to_string())));
}

use aw_man::com::image::ImageData;
use aw_man::com::mode::Fit;
use aw_man::com::raw_image::{RawImage, Samples};
use aw_man::com::res::{Res, TargetRes};
use aw_man::manager::work::WorkParams;
use aw_man::pools::extracting::{
    ArchiveContents, ArchiveReader, PendingExtraction, ReaderStep,
};
use aw_man::pools::gpu::{
    choose_device, downscaling_result, estimate_vram_mb, find_best_opencl_device,
    no_device_message, scale_step, start_downscale, vram_limit_mb, Device, DownscaleStart,
    OpenCLQueue, Progress, ScaleStep,
};
use aw_man::pools::loading::{ImageOrRes, ScanFuture, ScanResult, UnscaledImage};
use aw_man::pools::scanning::{
    animation_reader, converted_found, converted_path, finish_animation, gif_found, hashed_frame,
    is_usable, loaded_image, loading_result, make_frames, maybe_animated, readers, still_reader,
    Found, Reader, Scan, ScanStep, TaskEnd,
};
use aw_man::pools::upscaling::{estimate_upscaled_resolution, should_upscale};

fn res(w: u32, h: u32) -> Res {
    Res { w, h }
}

fn strings(v: &[&str]) -> Vec<String> {
    v.iter().map(|s| s.to_string()).collect()
}

fn png(w: u32, h: u32, bytes: Vec<u8>) -> Vec<u8> {
    let img = image::RgbaImage::from_raw(w, h, bytes).unwrap();
    let mut out = std::io::Cursor::new(Vec::new());
    img.write_to(&mut out, image::ImageFormat::Png).unwrap();
    out.into_inner()
}

#[test]
fn readers_are_tried_in_turn() {
    let pixbuf = strings(&["png", "svg", "gif"]);
    assert_eq!(readers("a.gif", &pixbuf), vec![Reader::Gif, Reader::Pixbuf]);
    assert_eq!(readers("a.PNG", &pixbuf), vec![Reader::Png, Reader::Pixbuf]);
    assert_eq!(readers("a.webp", &pixbuf), vec![Reader::Webp]);
    assert_eq!(readers("a.jpg", &pixbuf), vec![Reader::ImageCrate]);
    assert_eq!(readers("a.jxl", &pixbuf), vec![Reader::Jxl]);
    assert_eq!(readers("a.svg", &pixbuf), vec![Reader::Pixbuf]);
    assert!(readers("a.webm", &pixbuf).is_empty());
}

#[test]
fn gifs_by_their_first_frames() {
    let still = || Some(Ok(ImageOrRes::Res(res(3, 4))));
    assert!(matches!(gif_found(None, None), Found::NoFrames));
    assert!(matches!(gif_found(still(), None), Found::Image(ImageOrRes::Res(r)) if r == res(3, 4)));
    assert!(matches!(gif_found(still(), Some(Ok(()))), Found::Animation(r) if r == res(3, 4)));
    assert!(matches!(gif_found(still(), Some(Err(()))), Found::Unreadable));
    assert!(matches!(gif_found(Some(Err(())), None), Found::Unreadable));
    assert!(matches!(maybe_animated(true, ImageOrRes::Res(res(1, 2))), Found::Animation(_)));
    assert!(matches!(maybe_animated(false, ImageOrRes::Res(res(1, 2))), Found::Image(_)));
}

fn scan(path: &str) -> Scan {
    Scan::new(path, "/tmp/1c.png".to_string(), &strings(&["png", "svg"]))
}

fn done(s: ScanStep) -> ScanResult {
    match s {
        ScanStep::Done(r) => r,
        other => panic!("{other:?}"),
    }
}

#[test]
fn unreadable_images_are_converted() {
    let mut s = scan("a.png");
    assert!(matches!(s.next(), ScanStep::Try(Reader::Png)));
    assert!(matches!(s.found(Found::Unreadable), ScanStep::Try(Reader::Pixbuf)));
    let r = done(s.found(Found::Converted(ImageOrRes::Res(res(5, 6)))));
    assert!(matches!(
        r,
        ScanResult::ConvertedImage(p, ImageOrRes::Res(x)) if p == "/tmp/1c.png" && x == res(5, 6)
    ));
}

#[test]
fn files_that_nothing_reads() {
    let message = |r: ScanResult| match r {
        ScanResult::Invalid(e) => e,
        other => panic!("{other:?}"),
    };
    assert!(matches!(done(scan("a.webm").next()), ScanResult::Video));
    assert_eq!(message(done(scan("a.txt").next())), "not yet implemented");
    assert_eq!(message(done(scan("a.jpg").found(Found::Unreadable))), "not yet implemented");
    assert_eq!(message(done(scan("a.gif").found(Found::NoFrames))), "Read gif with no frames");
    assert_eq!(message(done(scan("a.svg").found(Found::Closed))), "closed");
    assert_eq!(
        message(done(scan("a.svg").found(Found::Failed("broken".to_string())))),
        "Error scanning file: broken"
    );
}

#[test]
fn converted_images_are_loaded() {
    let bytes = png(2, 1, vec![1, 2, 3, 255, 4, 5, 6, 255]);
    match converted_found(true, false, res(2, 1), &bytes, false, 9) {
        Found::Converted(ImageOrRes::Image(UnscaledImage(i))) => {
            assert_eq!((i.res, i.serial), (res(2, 1), 9));
            assert!(matches!(&*i.data, ImageData::Rgb(v) if *v == vec![1, 2, 3, 4, 5, 6]));
        }
        other => panic!("{other:?}"),
    }
    assert!(matches!(
        converted_found(false, false, res(2, 1), &bytes, false, 9),
        Found::Converted(ImageOrRes::Res(r)) if r == res(2, 1)
    ));
    assert!(matches!(converted_found(true, true, res(2, 1), &bytes, false, 9), Found::Closed));
    let expected = image::load_from_memory_with_format(b"nonsense", image::ImageFormat::Png)
        .unwrap_err()
        .to_string();
    assert!(matches!(
        converted_found(true, false, res(2, 1), b"nonsense", false, 9),
        Found::Failed(e) if e == expected
    ));
}

#[test]
fn decoded_images_must_add_up() {
    let raw = |n: usize| RawImage { res: res(2, 2), samples: Samples::Luma8(vec![0; n]) };
    assert!(is_usable(&raw(4)));
    assert!(!is_usable(&raw(3)));
    assert_eq!(loaded_image(Ok(Some(raw(4))), false, 1).unwrap().0.res, res(2, 2));
    assert_eq!(
        loaded_image(Ok(Some(raw(5))), false, 1).unwrap_err(),
        "The decoded image cannot be used"
    );
    assert_eq!(loaded_image(Ok(None), false, 1).unwrap_err(), "The decoded image cannot be used");
    assert_eq!(loaded_image(Err("no".to_string()), false, 1).unwrap_err(), "no");
}

#[test]
fn names_of_converted_files() {
    assert_eq!(converted_path("/tmp/x", 12), "/tmp/x/12c.png");
}

#[test]
fn readers_for_loading() {
    assert_eq!(still_reader("a.jxl"), Reader::Jxl);
    assert_eq!(still_reader("a.png"), Reader::ImageCrate);
    assert_eq!(animation_reader("a.gif"), Ok(Reader::Gif));
    assert_eq!(animation_reader("a.apng"), Ok(Reader::Png));
    assert_eq!(animation_reader("a.webp"), Ok(Reader::Webp));
    assert_eq!(animation_reader("a.jpg"), Err("Animation type not yet implemented"));
}

#[test]
fn animations_are_put_together() {
    let f = |v: u8| hashed_frame(res(1, 1), vec![v, v, v, 255], 40_000_000);
    assert_eq!(f(1).hash, f(1).hash);
    assert_ne!(f(1).hash, f(2).hash);
    let wide = hashed_frame(res(2, 1), vec![1; 8], 40_000_000);
    let high = hashed_frame(res(1, 2), vec![1; 8], 40_000_000);
    assert_ne!(wide.hash, high.hash);
    let frames = make_frames(vec![f(1), f(2), f(1)], false, 100);
    assert_eq!(frames.iter().map(|x| x.0.serial).collect::<Vec<_>>(), vec![100, 101, 102]);
    assert!(matches!(&*frames[1].0.data, ImageData::Grey(v) if *v == vec![2]));
    let a = finish_animation(frames, false, 7).unwrap().unwrap();
    assert_eq!((a.serial, a.dur()), (7, 120_000_000));
    assert_eq!(a.frames().frames.indices, vec![0, 1, 0]);
    assert!(matches!(finish_animation(Vec::new(), false, 7), Err("Empty animation")));
    assert!(matches!(finish_animation(Vec::new(), true, 7), Ok(None)));
}

#[test]
fn ends_of_tasks() {
    let failed = || TaskEnd::<u8>::Failed("x".to_string());
    let lost = || TaskEnd::<u8>::Lost("gone".to_string());
    assert_eq!(loading_result(TaskEnd::Done(1)), Ok(1));
    assert_eq!(loading_result(TaskEnd::<u8>::Cancelled), Err("Cancelled".to_string()));
    assert_eq!(loading_result(failed()), Err("Error loading file x".to_string()));
    assert_eq!(loading_result(lost()), Err("Unexpected error loading file gone".to_string()));
    assert_eq!(downscaling_result(TaskEnd::Done(1)), Ok(1));
    assert_eq!(downscaling_result(TaskEnd::<u8>::Cancelled), Err("Cancelled".to_string()));
    assert_eq!(downscaling_result(failed()), Err("Error downscaling file x".to_string()));
    assert_eq!(downscaling_result(lost()), Err("gone".to_string()));
}

#[test]
fn unloaded_scans_keep_the_resolution() {
    let image = || {
        let raw = RawImage { res: res(2, 2), samples: Samples::Luma8(vec![0; 4]) };
        ImageOrRes::Image(loaded_image(Ok(Some(raw)), false, 1).unwrap())
    };
    let mut f = ScanFuture { unloaded: false };
    assert!(matches!(f.finish(ScanResult::Image(image())), ScanResult::Image(ImageOrRes::Image(_))));
    f.unload_scanning();
    assert!(matches!(
        f.finish(ScanResult::Image(image())),
        ScanResult::Image(ImageOrRes::Res(r)) if r == res(2, 2)
    ));
    assert!(matches!(
        f.finish(ScanResult::ConvertedImage("p".to_string(), image())),
        ScanResult::ConvertedImage(p, ImageOrRes::Res(r)) if p == "p" && r == res(2, 2)
    ));
    assert!(matches!(f.finish(ScanResult::Video), ScanResult::Video));
}

#[test]
fn images_that_are_upscaled() {
    let target = res(2560, 1440);
    assert!(should_upscale(res(1000, 1000), target, None));
    assert!(!should_upscale(res(2560, 1000), target, None));
    assert!(!should_upscale(res(1000, 1440), target, None));
    assert!(should_upscale(res(3000, 100), target, Some(res(0, 200))));
    assert!(!should_upscale(res(1000, 1000), res(0, 0), Some(res(5000, 5000))));
    assert!(should_upscale(res(1000, 5000), res(2560, 0), None));
    let i = ImageOrRes::Res(res(10, 10));
    assert!(i.should_upscale(target, None));
}

#[test]
fn upscaled_sizes() {
    let target = res(2560, 1440);
    assert_eq!(estimate_upscaled_resolution(res(1280, 720), target, None), res(2560, 1440));
    assert_eq!(estimate_upscaled_resolution(res(1000, 500), target, None), res(2000, 1000));
    assert_eq!(estimate_upscaled_resolution(res(800, 400), target, None), res(3200, 1600));
    assert_eq!(estimate_upscaled_resolution(res(2000, 100), target, None), res(2000, 100));
    let minimum = Some(res(0, 300));
    assert_eq!(estimate_upscaled_resolution(res(2000, 100), target, minimum), res(8000, 400));
    assert_eq!(estimate_upscaled_resolution(res(0, 100), target, None), res(0, 100));
}

#[test]
fn memory_of_the_graphics_card() {
    assert_eq!(estimate_vram_mb(res(1024, 1024), res(512, 512)), 4 + 8 + 1);
    assert_eq!(estimate_vram_mb(res(1, 1), res(1, 1)), 0);
    assert_eq!(vram_limit_mb(Some(4)), 4096);
    assert_eq!(vram_limit_mb(None), 0);
    assert_eq!(choose_device(0, 10, false), Device::Processor);
    assert_eq!(choose_device(100, 101, false), Device::TooLarge);
    assert_eq!(choose_device(100, 100, true), Device::CardIfReady);
    assert_eq!(choose_device(100, 100, false), Device::CardWhenReady);
}

#[test]
fn graphics_card_states() {
    let mut q = OpenCLQueue::default();
    assert!(!q.get_if_init(Progress::Ready));
    assert_eq!(q, OpenCLQueue::Uninitialized);
    assert!(q.init());
    assert!(!q.init());
    assert!(!q.get_if_init(Progress::Pending));
    assert_eq!(q, OpenCLQueue::Initializing);
    assert!(q.get_if_init(Progress::Ready));
    assert!(q.await_queue(false));
    q.unload();
    assert_eq!(q, OpenCLQueue::Uninitialized);
    assert!(q.init());
    assert!(!q.await_queue(false));
    assert_eq!(q, OpenCLQueue::Failed);
    q.unload();
    assert_eq!(q, OpenCLQueue::Failed);
    assert!(!q.init());
}

#[test]
fn graphics_cards_by_name() {
    let names = vec![
        strings(&["Intel HD"]),
        Vec::new(),
        strings(&["", "NVIDIA A", "NVIDIA B"]),
    ];
    assert_eq!(find_best_opencl_device(&names, "NVIDIA"), Some((2, 1)));
    assert_eq!(find_best_opencl_device(&names, ""), Some((0, 0)));
    assert_eq!(find_best_opencl_device(&names, "AMD"), None);
    assert_eq!(no_device_message(""), None);
    assert_eq!(
        no_device_message("AMD").unwrap(),
        "Could not find matching GPU for prefix \"AMD\", try --show-gpus"
    );
}

#[test]
fn scaling_down() {
    let t = TargetRes { res: res(100, 100), fit: Fit::Container, half_width: false };
    let params = WorkParams {
        park_before_scale: false,
        jump_downscaling_queue: false,
        extract_early: false,
        target_res: t,
    };
    assert_eq!(
        start_downscale(&params, res(200, 100), false),
        DownscaleStart::To { res: res(100, 50), waits: true }
    );
    let parked = WorkParams { park_before_scale: true, ..params };
    assert_eq!(start_downscale(&parked, res(200, 100), true), DownscaleStart::Park);
    assert_eq!(scale_step(true, true, None), ScaleStep::Stop);
    assert_eq!(scale_step(false, true, None), ScaleStep::UseCard);
    assert_eq!(scale_step(false, false, None), ScaleStep::UseProcessor);
    assert_eq!(scale_step(true, true, Some(false)), ScaleStep::UseProcessor);
    assert_eq!(scale_step(false, true, Some(true)), ScaleStep::Finish);
}

fn jobs(v: &[(&str, usize)]) -> PendingExtraction {
    let mut p = PendingExtraction::new();
    for (path, job) in v {
        p.insert(path.to_string(), *job);
    }
    p
}

fn start(path: &str, size: i64) -> ArchiveContents {
    ArchiveContents::StartOfEntry(path.to_string(), size)
}

fn sent(s: ReaderStep) -> Option<(usize, Vec<u8>)> {
    match s {
        ReaderStep::Send(job, data) => Some((job, data)),
        ReaderStep::Continue => None,
        ReaderStep::Fail(e) => panic!("{e}"),
    }
}

#[test]
fn files_arrive_whole() {
    let mut r = ArchiveReader::new(jobs(&[("a.png", 3), ("b.png", 4)]));
    assert!(r.may_jump());
    assert_eq!(sent(r.read(start("a.png", 5))), None);
    assert!(!r.may_jump());
    assert_eq!(sent(r.read(ArchiveContents::DataChunk(vec![1, 2]))), None);
    assert_eq!(sent(r.read(ArchiveContents::DataChunk(vec![3]))), None);
    assert_eq!(sent(r.read(ArchiveContents::EndOfEntry)), Some((3, vec![1, 2, 3])));
    assert!(r.may_jump());
    r.read(start("notes.txt", 0));
    r.read(ArchiveContents::DataChunk(vec![9]));
    assert_eq!(sent(r.read(ArchiveContents::EndOfEntry)), None);
    r.read(start("b.png", 0));
    assert_eq!(sent(r.read(ArchiveContents::EndOfEntry)), Some((4, Vec::new())));
}

#[test]
fn files_are_written_once() {
    let mut r = ArchiveReader::new(jobs(&[("a.png", 3)]));
    r.read(start("a.png", 1));
    assert_eq!(sent(r.read(ArchiveContents::EndOfEntry)), Some((3, Vec::new())));
    r.read(start("a.png", 1));
    assert_eq!(sent(r.read(ArchiveContents::EndOfEntry)), None);
}

#[test]
fn pages_jump_the_queue() {
    let mut r = ArchiveReader::new(jobs(&[("a.png", 3), ("b.png", 4)]));
    assert_eq!(r.jump(&"b.png".to_string()), Some(4));
    assert_eq!(r.jump(&"b.png".to_string()), None);
    assert_eq!(r.jump(&"c.png".to_string()), None);
    r.read(start("b.png", 1));
    assert_eq!(sent(r.read(ArchiveContents::EndOfEntry)), None);
    r.read(start("a.png", 1));
    assert_eq!(sent(r.read(ArchiveContents::EndOfEntry)), Some((3, Vec::new())));
}

#[test]
fn broken_archives_end_extraction() {
    let mut r = ArchiveReader::new(jobs(&[]));
    assert!(matches!(
        r.read(ArchiveContents::Failed("truncated".to_string())),
        ReaderStep::Fail(e) if e == "truncated"
    ));
}

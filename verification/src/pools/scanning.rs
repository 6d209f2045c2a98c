//! Finding out what a file is, and loading it.
use image::DynamicImage::{
    ImageLuma16, ImageLuma8, ImageLumaA16, ImageLumaA8, ImageRgb16, ImageRgb8, ImageRgba16, ImageRgba8,
};
use image::load_from_memory_with_format;
use image::ImageFormat::Png;
use vstd::prelude::*;

use crate::com::frames::{AnimatedImage, HashedFrame, Nanos, LONGEST};
use crate::com::image::{area, Image};
use crate::com::raw_image::{compact, usable, RawImage, Samples, SamplesView};
use crate::com::res::Res;
use crate::manager::files::{
    has_extension, has_string_extension, image_crate_names, is_gif, is_image_crate_supported,
    is_jxl, is_pixbuf_extension, is_png, is_video_extension, is_webp, one_of, video_names,
};
use crate::number::{decimal, lemma_decimal_round_trip, push_decimal};
use crate::path::{extension, inside, join_path};
use crate::pools::loading::{ImageOrRes, ScanResult, UnscaledImage};
use crate::text::{ascii_lower, equal_ignoring_case};

verus! {

/// A way to read a file.
#[derive(Clone, Copy, Debug, PartialEq, Eq, Structural)]
pub enum Reader {
    Gif,
    Png,
    Webp,
    /// Any other format that the image crate reads.
    ImageCrate,
    Jxl,
    /// Pixbuf, by which the file is converted to another one.
    Pixbuf,
}

/// The reader for the formats of the image crate.
pub open spec fn native_reader(path: Seq<char>) -> Seq<Reader> {
    if has_extension(path, seq!["gif"]) {
        seq![Reader::Gif]
    } else if has_extension(path, seq!["png", "apng"]) {
        seq![Reader::Png]
    } else if has_extension(path, seq!["webp"]) {
        seq![Reader::Webp]
    } else if has_extension(path, image_crate_names()) {
        seq![Reader::ImageCrate]
    } else {
        seq![]
    }
}

/// The readers that are tried for a file, in turn.
pub open spec fn readers_for(path: Seq<char>, pixbuf: Seq<String>) -> Seq<Reader> {
    native_reader(path) + (if has_extension(path, seq!["jxl"]) {
        seq![Reader::Jxl]
    } else {
        seq![]
    }) + (if has_string_extension(path, pixbuf) {
        seq![Reader::Pixbuf]
    } else {
        seq![]
    })
}

/// The readers that are tried for a file, in turn.
pub fn readers(path: &str, pixbuf: &Vec<String>) -> (r: Vec<Reader>)
    ensures
        r@ == readers_for(path@, pixbuf@),
{
    let mut r: Vec<Reader> = Vec::new();
    if is_gif(path) {
        r.push(Reader::Gif);
    } else if is_png(path) {
        r.push(Reader::Png);
    } else if is_webp(path) {
        r.push(Reader::Webp);
    } else if is_image_crate_supported(path) {
        r.push(Reader::ImageCrate);
    }
    assert(r@ =~= native_reader(path@));
    if is_jxl(path) {
        r.push(Reader::Jxl);
    }
    if is_pixbuf_extension(path, pixbuf) {
        r.push(Reader::Pixbuf);
    }
    assert(r@ =~= readers_for(path@, pixbuf@));
    r
}

/// What a reader made of a file.
#[derive(Debug)]
pub enum Found {
    Image(ImageOrRes),
    Animation(Res),
    /// An image that was written to another file.
    Converted(ImageOrRes),
    /// A moving picture without any frame.
    NoFrames,
    /// The application is being closed.
    Closed,
    /// The reader cannot read it, and the next one may.
    Unreadable,
    /// Nothing can read it, and this is why.
    Failed(String),
}

/// What is said of a moving picture without any frame.
pub open spec fn no_frames() -> Seq<char> {
    "Read gif with no frames"@
}

/// What the first two frames of a moving picture show it to be.
pub fn gif_found(first: Option<Result<ImageOrRes, ()>>, second: Option<Result<(), ()>>) -> (r:
    Found)
    ensures
        r == match (first, second) {
            (None, _) => Found::NoFrames,
            (Some(Ok(i)), None) => Found::Image(i),
            (Some(Ok(i)), Some(Ok(_))) => Found::Animation(i.spec_res()),
            (Some(Err(_)), _) | (Some(Ok(_)), Some(Err(_))) => Found::Unreadable,
        },
{
    match (first, second) {
        (None, _) => Found::NoFrames,
        (Some(Ok(i)), None) => Found::Image(i),
        (Some(Ok(i)), Some(Ok(_))) => Found::Animation(i.res()),
        (Some(Err(_)), _) | (Some(Ok(_)), Some(Err(_))) => Found::Unreadable,
    }
}

/// What a file is that may be animated, by its image or resolution.
pub fn maybe_animated(animated: bool, i: ImageOrRes) -> (r: Found)
    ensures
        r == if animated {
            Found::Animation(i.spec_res())
        } else {
            Found::Image(i)
        },
{
    if animated {
        Found::Animation(i.res())
    } else {
        Found::Image(i)
    }
}

/// What the bytes of a PNG file hold: a resolution and samples, nothing where the samples are of
/// no kind that is known, or an error.
pub uninterp spec fn png_contents(bytes: Seq<u8>) -> Result<
    Option<(Res, SamplesView)>,
    Seq<char>,
>;

/// `image::load_from_memory_with_format` decodes the bytes of a PNG file. What comes of it depends
/// on the bytes alone, and is named by `png_contents`.
#[verifier::external_body]
fn decode_png(bytes: &[u8]) -> (r: Result<Option<RawImage>, String>)
    ensures
        match png_contents(bytes@) {
            Ok(Some((res, s))) => r matches Ok(Some(raw)) && raw.res == res && raw.samples@ == s,
            Ok(None) => r matches Ok(o) && o is None,
            Err(e) => r matches Err(x) && x@ == e,
        },
{
    let d = load_from_memory_with_format(bytes, Png).map_err(|e| e.to_string())?;
    let res = Res { w: d.width(), h: d.height() };
    Ok(Some(RawImage { res, samples: match d {
        ImageLuma8(b) => Samples::Luma8(b.into_raw()),
        ImageLuma16(b) => Samples::Luma16(b.into_raw()),
        ImageLumaA8(b) => Samples::LumaA8(b.into_raw()),
        ImageLumaA16(b) => Samples::LumaA16(b.into_raw()),
        ImageRgb8(b) => Samples::Rgb8(b.into_raw()),
        ImageRgb16(b) => Samples::Rgb16(b.into_raw()),
        ImageRgba8(b) => Samples::Rgba8(b.into_raw()),
        ImageRgba16(b) => Samples::Rgba16(b.into_raw()),
        _ => return Ok(None),
    } }))
}

/// Whether a decoded image has as many samples as its resolution says, and not too many to be
/// counted.
pub fn is_usable(raw: &RawImage) -> (r: bool)
    ensures
        r == raw.wf(),
{
    let w = raw.res.w as u128;
    let h = raw.res.h as u128;
    assert(w * h <= 0xffff_ffffu128 * 0xffff_ffff) by (nonlinear_arith)
        requires
            w <= 0xffff_ffff,
            h <= 0xffff_ffff,
    ;
    let pixels: u128 = w * h;
    assert(pixels == area(raw.res));
    let (count, channels): (usize, u128) = match &raw.samples {
        Samples::Luma8(v) => (v.len(), 1),
        Samples::Luma16(v) => (v.len(), 1),
        Samples::LumaA8(v) => (v.len(), 2),
        Samples::LumaA16(v) => (v.len(), 2),
        Samples::Rgb8(v) => (v.len(), 3),
        Samples::Rgb16(v) => (v.len(), 3),
        Samples::Rgba8(v) => (v.len(), 4),
        Samples::Rgba16(v) => (v.len(), 4),
    };
    assert(pixels * channels <= pixels * 4 && pixels * channels >= 0) by (nonlinear_arith)
        requires
            0 <= channels <= 4,
            0 <= pixels,
    ;
    count as u128 == pixels * channels && pixels * 4 <= isize::MAX as u128 && w * 4
        <= isize::MAX as u128
}

/// Whether an image is the one that was decoded.
pub open spec fn is_loaded(raw: RawImage, force_rgba: bool, serial: u64, i: UnscaledImage) -> bool {
    &&& i.0.wf()
    &&& i.0.res == raw.res
    &&& i.0.serial == serial
    &&& compact(raw.res, raw.samples@, force_rgba, i.0.data())
}

/// What is said of an image whose samples cannot be used.
pub open spec fn unusable() -> Seq<char> {
    "The decoded image cannot be used"@
}

/// The image for one that was decoded, or why there is none.
pub fn loaded_image(decoded: Result<Option<RawImage>, String>, force_rgba: bool, serial: u64) -> (r:
    Result<UnscaledImage, String>)
    ensures
        match decoded {
            Ok(Some(raw)) => if raw.wf() {
                r matches Ok(i) && is_loaded(raw, force_rgba, serial, i)
            } else {
                r matches Err(e) && e@ == unusable()
            },
            Ok(None) => r matches Err(e) && e@ == unusable(),
            Err(x) => r == Err::<UnscaledImage, String>(x),
        },
{
    match decoded {
        Ok(Some(raw)) => if is_usable(&raw) {
            Ok(UnscaledImage(Image::from_raw(raw, force_rgba, serial)))
        } else {
            Err("The decoded image cannot be used".to_owned())
        },
        Ok(None) => Err("The decoded image cannot be used".to_owned()),
        Err(e) => Err(e),
    }
}

/// What a converted file is, once it was written: only its resolution unless it is to be loaded,
/// and nothing where the application is being closed.
pub fn converted_found(
    load: bool,
    closed: bool,
    res: Res,
    png: &[u8],
    force_rgba: bool,
    serial: u64,
) -> (r: Found)
    ensures
        !load ==> r == Found::Converted(ImageOrRes::Res(res)),
        load && closed ==> r is Closed,
        load && !closed ==> match png_contents(png@) {
            Ok(Some((res, s))) => if usable(res, s) {
                r matches Found::Converted(ImageOrRes::Image(i)) && i.0.wf() && i.0.res == res
                    && i.0.serial == serial && compact(res, s, force_rgba, i.0.data())
            } else {
                r matches Found::Failed(e) && e@ == unusable()
            },
            Ok(None) => r matches Found::Failed(e) && e@ == unusable(),
            Err(x) => r matches Found::Failed(e) && e@ == x,
        },
{
    if !load {
        return Found::Converted(ImageOrRes::Res(res));
    }
    if closed {
        return Found::Closed;
    }
    match loaded_image(decode_png(png), force_rgba, serial) {
        Ok(i) => Found::Converted(ImageOrRes::Image(i)),
        Err(e) => Found::Failed(e),
    }
}

/// The name of the file that a page is converted to.
pub open spec fn converted_name(file_index: nat) -> Seq<char> {
    decimal(file_index) + "c.png"@
}

/// The path of the file that a page is converted to.
pub fn converted_path(temp_dir: &str, file_index: usize) -> (r: String)
    ensures
        r@ == inside(temp_dir@, converted_name(file_index as nat)),
{
    let mut name = String::new();
    push_decimal(&mut name, file_index as u64);
    name.append("c.png");
    assert(name@ =~= converted_name(file_index as nat));
    join_path(temp_dir, name.as_str())
}

/// A file that is being looked at.
#[derive(Debug)]
pub struct Scan {
    readers: Vec<Reader>,
    /// How many readers could not read it.
    tried: usize,
    video: bool,
    converted: String,
}

/// What to do next for a file that is being looked at.
#[derive(Debug)]
pub enum ScanStep {
    Try(Reader),
    Done(ScanResult),
}

/// What a file is that no reader can read.
pub open spec fn unread(video: bool, r: ScanResult) -> bool {
    if video {
        r is Video
    } else {
        r matches ScanResult::Invalid(e) && e@ == "not yet implemented"@
    }
}

/// What a file is by what a reader made of it.
pub open spec fn settled(found: Found, converted: Seq<char>, r: ScanResult) -> bool {
    match found {
        Found::Image(i) => r == ScanResult::Image(i),
        Found::Animation(res) => r == ScanResult::Animation(res),
        Found::Converted(i) => r matches ScanResult::ConvertedImage(p, j) && p@ == converted && j
            == i,
        Found::NoFrames => r matches ScanResult::Invalid(e) && e@ == no_frames(),
        Found::Closed => r matches ScanResult::Invalid(e) && e@ == "closed"@,
        Found::Failed(x) => r matches ScanResult::Invalid(e) && e@ == "Error scanning file: "@
            + x@,
        Found::Unreadable => false,
    }
}

impl Scan {
    /// The readers that are still to be tried.
    pub closed spec fn left(self) -> Seq<Reader> {
        self.readers@.skip(self.tried as int)
    }

    /// Whether the file is a video if no reader can read it.
    pub closed spec fn video(self) -> bool {
        self.video
    }

    /// The path of the file that it is converted to.
    pub closed spec fn converted(self) -> Seq<char> {
        self.converted@
    }

    pub closed spec fn wf(self) -> bool {
        self.tried <= self.readers@.len()
    }

    /// What to do next.
    pub open spec fn is_next(self, s: ScanStep) -> bool {
        if self.left().len() > 0 {
            s == ScanStep::Try(self.left()[0])
        } else {
            s matches ScanStep::Done(r) && unread(self.video(), r)
        }
    }

    /// Starts to look at a file.
    pub fn new(path: &str, converted: String, pixbuf: &Vec<String>) -> (r: Scan)
        ensures
            r.wf(),
            r.left() == readers_for(path@, pixbuf@),
            r.video() == has_extension(path@, video_names()),
            r.converted() == converted@,
    {
        let r = Scan {
            readers: readers(path, pixbuf),
            tried: 0,
            video: is_video_extension(path),
            converted,
        };
        assert(r.left() =~= r.readers@);
        r
    }

    /// What to do first, and after a reader could not read the file.
    pub fn next(&self) -> (r: ScanStep)
        requires
            self.wf(),
        ensures
            self.is_next(r),
    {
        if self.tried < self.readers.len() {
            ScanStep::Try(self.readers[self.tried])
        } else if self.video {
            ScanStep::Done(ScanResult::Video)
        } else {
            ScanStep::Done(ScanResult::Invalid("not yet implemented".to_owned()))
        }
    }

    /// What to do after a reader was tried.
    pub fn found(&mut self, found: Found) -> (r: ScanStep)
        requires
            old(self).wf(),
            old(self).left().len() > 0,
        ensures
            final(self).wf(),
            final(self).video() == old(self).video(),
            final(self).converted() == old(self).converted(),
            found is Unreadable ==> final(self).left() == old(self).left().skip(1)
                && final(self).is_next(r),
            !(found is Unreadable) ==> final(self).left() == old(self).left() && (r
                matches ScanStep::Done(d) && settled(found, old(self).converted(), d)),
    {
        let done = match found {
            Found::Image(i) => ScanResult::Image(i),
            Found::Animation(res) => ScanResult::Animation(res),
            Found::Converted(i) => ScanResult::ConvertedImage(self.converted.clone(), i),
            Found::NoFrames => ScanResult::Invalid("Read gif with no frames".to_owned()),
            Found::Closed => ScanResult::Invalid("closed".to_owned()),
            Found::Failed(e) => {
                let mut text = "Error scanning file: ".to_owned();
                text.append(e.as_str());
                ScanResult::Invalid(text)
            },
            Found::Unreadable => {
                if self.tried < self.readers.len() {
                    self.tried += 1;
                }
                assert(self.left() =~= old(self).left().skip(1));
                return self.next();
            },
        };
        ScanStep::Done(done)
    }
}

/// What a file comes to if its readers make the given things of it, in turn.
pub open spec fn scan_comes_to(
    left: Seq<Reader>,
    video: bool,
    converted: Seq<char>,
    made: spec_fn(Reader) -> Found,
    r: ScanResult,
) -> bool
    decreases left.len(),
{
    if left.len() == 0 {
        unread(video, r)
    } else if made(left[0]) is Unreadable {
        scan_comes_to(left.skip(1), video, converted, made, r)
    } else {
        settled(made(left[0]), converted, r)
    }
}

/// A file that the image crate cannot read is converted by Pixbuf where that can read it.
pub proof fn law_pixbuf_is_tried_last(
    path: Seq<char>,
    pixbuf: Seq<String>,
    converted: Seq<char>,
    made: spec_fn(Reader) -> Found,
    i: ImageOrRes,
    r: ScanResult,
)
    requires
        has_string_extension(path, pixbuf),
        forall|x: Reader| x != Reader::Pixbuf ==> #[trigger] made(x) is Unreadable,
        made(Reader::Pixbuf) == Found::Converted(i),
        scan_comes_to(
            readers_for(path, pixbuf),
            has_extension(path, video_names()),
            converted,
            made,
            r,
        ),
    ensures
        r matches ScanResult::ConvertedImage(p, j) && p@ == converted && j == i,
{
    let all = readers_for(path, pixbuf);
    lemma_unreadable_skipped(
        all,
        has_extension(path, video_names()),
        converted,
        made,
        r,
        (all.len() - 1) as nat,
    );
    assert(all.skip(all.len() - 1)[0] == Reader::Pixbuf);
}

proof fn lemma_unreadable_skipped(
    left: Seq<Reader>,
    video: bool,
    converted: Seq<char>,
    made: spec_fn(Reader) -> Found,
    r: ScanResult,
    n: nat,
)
    requires
        n <= left.len(),
        forall|k: int| 0 <= k < n ==> #[trigger] left[k] != Reader::Pixbuf,
        forall|x: Reader| x != Reader::Pixbuf ==> #[trigger] made(x) is Unreadable,
    ensures
        scan_comes_to(left, video, converted, made, r) == scan_comes_to(
            left.skip(n as int),
            video,
            converted,
            made,
            r,
        ),
    decreases n,
{
    if n == 0 {
        assert(left.skip(0) =~= left);
    } else {
        assert(left[0] != Reader::Pixbuf);
        assert(made(left[0]) is Unreadable);
        assert forall|k: int| 0 <= k < n - 1 implies #[trigger] left.skip(1)[k] != Reader::Pixbuf by {
            assert(left.skip(1)[k] == left[k + 1]);
        }
        lemma_unreadable_skipped(left.skip(1), video, converted, made, r, (n - 1) as nat);
        assert(left.skip(1).skip(n - 1) =~= left.skip(n as int));
    }
}

/// The reader for an image that is loaded again.
pub fn still_reader(path: &str) -> (r: Reader)
    requires
        has_extension(path@, seq!["jxl"]) || has_extension(path@, image_crate_names()),
    ensures
        r == if has_extension(path@, seq!["jxl"]) {
            Reader::Jxl
        } else {
            Reader::ImageCrate
        },
{
    if is_jxl(path) {
        Reader::Jxl
    } else {
        Reader::ImageCrate
    }
}

/// The reader for an animation.
pub fn animation_reader(path: &str) -> (r: Result<Reader, &'static str>)
    ensures
        match r {
            Ok(x) => native_reader(path@) == seq![x] && x != Reader::ImageCrate,
            Err(e) => e@ == "Animation type not yet implemented"@ && (native_reader(path@)
                == seq![Reader::ImageCrate] || native_reader(path@).len() == 0),
        },
{
    if is_gif(path) {
        Ok(Reader::Gif)
    } else if is_png(path) {
        Ok(Reader::Png)
    } else if is_webp(path) {
        Ok(Reader::Webp)
    } else {
        Err("Animation type not yet implemented")
    }
}

/// A frame as it was decoded, with its samples of red, green, blue and alpha, for how long it is
/// shown, and a hash.
#[derive(Debug)]
pub struct RawFrame {
    pub res: Res,
    pub rgba: Vec<u8>,
    pub shown: Nanos,
    pub hash: u64,
}

/// `ahash::AHasher` with `finish` of std's `Hasher`: a hash of a size and of some bytes. Which one
/// it is may depend on the machine, so nothing is claimed of it.
#[verifier::external_body]
fn hash_image(w: u32, h: u32, bytes: &Vec<u8>) -> (r: u64) {
    let mut hasher = ahash::AHasher::default();
    std::hash::Hash::hash(&(w, h, bytes), &mut hasher);
    std::hash::Hasher::finish(&hasher)
}

/// A frame with a hash of its size and its samples.
pub fn hashed_frame(res: Res, rgba: Vec<u8>, shown: Nanos) -> (r: RawFrame)
    ensures
        r.res == res,
        r.rgba == rgba,
        r.shown == shown,
{
    let hash: u64 = hash_image(res.w, res.h, &rgba);
    RawFrame { res, rgba, shown, hash }
}

impl RawFrame {
    /// The frame as a decoded image.
    pub open spec fn raw(self) -> RawImage {
        RawImage { res: self.res, samples: Samples::Rgba8(self.rgba) }
    }

    /// Whether the samples can be used, and the frame is shown for a time that can be told.
    pub open spec fn wf(self) -> bool {
        self.raw().wf() && self.shown <= LONGEST
    }
}

/// Whether a frame is the one that was decoded.
pub open spec fn is_frame(f: RawFrame, force_rgba: bool, h: HashedFrame) -> bool {
    &&& h.0.wf()
    &&& h.0.res == f.res
    &&& compact(f.res, SamplesView::Rgba8(f.rgba@), force_rgba, h.0.data())
    &&& h.1 == f.shown
    &&& h.2 == f.hash
}

/// The frames of an animation, each of them with a number of its own from a given one on.
pub fn make_frames(frames: Vec<RawFrame>, force_rgba: bool, serial: u64) -> (r: Vec<HashedFrame>)
    requires
        forall|i: int| 0 <= i < frames@.len() ==> (#[trigger] frames@[i]).wf(),
        serial + frames@.len() <= u64::MAX,
    ensures
        r@.len() == frames@.len(),
        forall|i: int|
            0 <= i < r@.len() ==> is_frame(frames@[i], force_rgba, #[trigger] r@[i])
                && r@[i].0.serial == serial + i,
{
    let ghost all = frames@;
    let mut frames = frames;
    let mut backwards: Vec<RawFrame> = Vec::new();
    while frames.len() > 0
        invariant
            frames@ == all.take(frames@.len() as int),
            frames@.len() + backwards@.len() == all.len(),
            forall|k: int|
                0 <= k < backwards@.len() ==> #[trigger] backwards@[k] == all[all.len() - 1 - k],
        decreases frames@.len(),
    {
        let f = frames.pop().unwrap();
        assert(f == all[frames@.len() as int]);
        backwards.push(f);
        assert(frames@ =~= all.take(frames@.len() as int));
    }
    let mut r: Vec<HashedFrame> = Vec::new();
    let mut next: u64 = serial;
    while backwards.len() > 0
        invariant
            r@.len() + backwards@.len() == all.len(),
            next == serial + r@.len(),
            serial + all.len() <= u64::MAX,
            forall|i: int| 0 <= i < all.len() ==> (#[trigger] all[i]).wf(),
            forall|k: int|
                0 <= k < backwards@.len() ==> #[trigger] backwards@[k] == all[all.len() - 1 - k],
            forall|i: int|
                0 <= i < r@.len() ==> is_frame(all[i], force_rgba, #[trigger] r@[i])
                    && r@[i].0.serial == serial + i,
        decreases backwards@.len(),
    {
        let f = backwards.pop().unwrap();
        assert(f == all[r@.len() as int]);
        let raw = RawImage { res: f.res, samples: Samples::Rgba8(f.rgba) };
        assert(all[r@.len() as int].wf());
        let image = Image::from_raw(raw, force_rgba, next);
        r.push((image, f.shown, f.hash));
        next += 1;
    }
    r
}

/// The animation of some decoded frames, if it was not cancelled in the meantime.
pub fn finish_animation(
    frames: Vec<HashedFrame>,
    cancelled: bool,
    serial: u64,
) -> (r: Result<Option<AnimatedImage>, &'static str>)
    requires
        forall|i: int| 0 <= i < frames@.len() ==> (#[trigger] frames@[i]).1 <= LONGEST,
    ensures
        cancelled ==> r == Ok::<Option<AnimatedImage>, &'static str>(None),
        !cancelled && frames@.len() == 0 ==> (r matches Err(e) && e@ == "Empty animation"@),
        !cancelled && frames@.len() > 0 ==> (r matches Ok(Some(a)) && a.wf() && a.serial == serial
            && a.is_of(frames@)),
{
    if cancelled {
        return Ok(None);
    }
    if frames.len() == 0 {
        return Err("Empty animation");
    }
    Ok(Some(AnimatedImage::new(frames, serial)))
}

/// What comes of work on another thread.
#[derive(Debug)]
pub enum TaskEnd<T> {
    Done(T),
    Cancelled,
    Failed(String),
    /// The thread went away.
    Lost(String),
}

/// What is said of loading that failed.
pub fn loading_result<T>(end: TaskEnd<T>) -> (r: Result<T, String>)
    ensures
        match end {
            TaskEnd::Done(t) => r == Ok::<T, String>(t),
            TaskEnd::Cancelled => r matches Err(e) && e@ == "Cancelled"@,
            TaskEnd::Failed(x) => r matches Err(e) && e@ == "Error loading file "@ + x@,
            TaskEnd::Lost(x) => r matches Err(e) && e@ == "Unexpected error loading file "@ + x@,
        },
{
    match end {
        TaskEnd::Done(t) => Ok(t),
        TaskEnd::Cancelled => Err("Cancelled".to_owned()),
        TaskEnd::Failed(x) => {
            let mut e = "Error loading file ".to_owned();
            e.append(x.as_str());
            Err(e)
        },
        TaskEnd::Lost(x) => {
            let mut e = "Unexpected error loading file ".to_owned();
            e.append(x.as_str());
            Err(e)
        },
    }
}

/// Each file is read by what reads its format, by its extension in any case. Gdk-pixbuf comes after
/// everything else.
pub proof fn law_readers_by_extension(path: Seq<char>, pixbuf: Seq<String>, e: Seq<char>)
    requires
        extension(path) == Some(e),
    ensures
        ({
            let v = readers_for(path, pixbuf);
            &&& equal_ignoring_case(e, "gif"@) ==> v.len() > 0 && v[0] is Gif
            &&& equal_ignoring_case(e, "png"@) || equal_ignoring_case(e, "apng"@) ==> v.len() > 0
                && v[0] is Png
            &&& equal_ignoring_case(e, "webp"@) ==> v.len() > 0 && v[0] is Webp
            &&& equal_ignoring_case(e, "jpg"@) || equal_ignoring_case(e, "jpeg"@)
                || equal_ignoring_case(e, "bmp"@) || equal_ignoring_case(e, "avif"@)
                || equal_ignoring_case(e, "tiff"@) || equal_ignoring_case(e, "tga"@) ==> v.len() > 0
                && v[0] is ImageCrate
            &&& equal_ignoring_case(e, "jxl"@) ==> v.contains(Reader::Jxl)
            &&& v.contains(Reader::Pixbuf) ==> v.last() is Pixbuf
            &&& (exists|i: int| 0 <= i < pixbuf.len() && equal_ignoring_case(
                e,
                (#[trigger] pixbuf[i])@,
            )) ==> v.contains(Reader::Pixbuf)
        }),
{
    reveal_strlit("gif");
    reveal_strlit("png");
    reveal_strlit("apng");
    reveal_strlit("webp");
    reveal_strlit("jpg");
    reveal_strlit("jpeg");
    reveal_strlit("bmp");
    reveal_strlit("avif");
    reveal_strlit("tiff");
    reveal_strlit("tga");
    let gif = seq!["gif"];
    let png = seq!["png", "apng"];
    let webp = seq!["webp"];
    let jxl = seq!["jxl"];
    let names = image_crate_names();
    assert(gif[0]@ == "gif"@);
    assert(png[0]@ == "png"@ && png[1]@ == "apng"@);
    assert(webp[0]@ == "webp"@);
    assert(jxl[0]@ == "jxl"@);
    assert(names[0]@ == "jpg"@);
    assert(names[1]@ == "jpeg"@);
    assert(names[3]@ == "bmp"@);
    assert(names[5]@ == "avif"@);
    assert(names[15]@ == "tiff"@);
    assert(names[13]@ == "tga"@);
    assert(one_of(e, gif) <==> equal_ignoring_case(e, "gif"@));
    assert(one_of(e, png) <==> equal_ignoring_case(e, "png"@) || equal_ignoring_case(e, "apng"@));
    assert(one_of(e, webp) <==> equal_ignoring_case(e, "webp"@));
    if e.len() > 0 {
        assert(equal_ignoring_case(e, "gif"@) ==> ascii_lower(e[0]) == ascii_lower("gif"@[0]));
        assert(equal_ignoring_case(e, "png"@) ==> ascii_lower(e[0]) == ascii_lower("png"@[0]));
        assert(equal_ignoring_case(e, "apng"@) ==> ascii_lower(e[0]) == ascii_lower("apng"@[0])
            && ascii_lower(e[1]) == ascii_lower("apng"@[1]));
        assert(equal_ignoring_case(e, "webp"@) ==> ascii_lower(e[0]) == ascii_lower("webp"@[0]));
        assert(equal_ignoring_case(e, "jpg"@) ==> ascii_lower(e[0]) == ascii_lower("jpg"@[0]));
        assert(equal_ignoring_case(e, "jpeg"@) ==> ascii_lower(e[0]) == ascii_lower("jpeg"@[0]));
        assert(equal_ignoring_case(e, "bmp"@) ==> ascii_lower(e[0]) == ascii_lower("bmp"@[0]));
        assert(equal_ignoring_case(e, "avif"@) ==> ascii_lower(e[0]) == ascii_lower("avif"@[0])
            && ascii_lower(e[1]) == ascii_lower("avif"@[1]));
        assert(equal_ignoring_case(e, "tiff"@) ==> ascii_lower(e[0]) == ascii_lower("tiff"@[0]));
        assert(equal_ignoring_case(e, "tga"@) ==> ascii_lower(e[0]) == ascii_lower("tga"@[0]));
    }
    let v = readers_for(path, pixbuf);
    let n = native_reader(path);
    assert(n.len() <= 1);
    if one_of(e, jxl) {
        assert(v[n.len() as int] is Jxl);
    }
    if has_string_extension(path, pixbuf) {
        assert(v[v.len() - 1] is Pixbuf);
    }
}

/// What is found of a file is what the page is: an image stays an image, an animation one, and a file
/// that was converted is read from where it was written to.
pub proof fn law_what_is_found_is_what_the_page_is(
    found: Found,
    converted: Seq<char>,
    r: ScanResult,
)
    requires
        settled(found, converted, r),
    ensures
        found matches Found::Image(i) ==> r == ScanResult::Image(i),
        found matches Found::Animation(res) ==> r == ScanResult::Animation(res),
        found matches Found::Converted(i) ==> (r matches ScanResult::ConvertedImage(p, j) && p@
            == converted && i == j),
        found is Failed || found is Closed || found is NoFrames ==> r is Invalid,
        !(r is Video),
{
}

/// A file that nothing can read is a video if its name says so, and otherwise nothing.
pub proof fn law_files_that_nothing_reads(
    left: Seq<Reader>,
    video: bool,
    converted: Seq<char>,
    made: spec_fn(Reader) -> Found,
    r: ScanResult,
)
    requires
        forall|x: Reader| #[trigger] made(x) is Unreadable,
        scan_comes_to(left, video, converted, made, r),
    ensures
        video ==> r is Video,
        !video ==> r is Invalid,
    decreases left.len(),
{
    if left.len() > 0 {
        law_files_that_nothing_reads(left.skip(1), video, converted, made, r);
    }
}

/// The first reader that can read a file decides what it is.
pub proof fn law_first_reader_decides(
    left: Seq<Reader>,
    video: bool,
    converted: Seq<char>,
    made: spec_fn(Reader) -> Found,
    r: ScanResult,
    n: int,
)
    requires
        0 <= n < left.len(),
        forall|k: int| 0 <= k < n ==> made(#[trigger] left[k]) is Unreadable,
        !(made(left[n]) is Unreadable),
        scan_comes_to(left, video, converted, made, r),
    ensures
        settled(made(left[n]), converted, r),
    decreases n,
{
    if n > 0 {
        assert(made(left[0]) is Unreadable);
        let rest = left.skip(1);
        assert forall|k: int| 0 <= k < n - 1 implies made(#[trigger] rest[k]) is Unreadable by {
            assert(rest[k] == left[k + 1]);
        }
        law_first_reader_decides(rest, video, converted, made, r, n - 1);
    }
}

/// Pages are converted to files of their own, each under its number.
pub proof fn law_names_of_converted_files(i: usize, j: usize)
    ensures
        converted_name(i as nat) == decimal(i as nat) + "c.png"@,
        converted_name(i as nat) == converted_name(j as nat) ==> i == j,
{
    if converted_name(i as nat) == converted_name(j as nat) {
        lemma_decimal_round_trip(i as nat, usize::MAX as nat);
        lemma_decimal_round_trip(j as nat, usize::MAX as nat);
        let a = converted_name(i as nat);
        let b = converted_name(j as nat);
        assert(a.take(decimal(i as nat).len() as int) =~= decimal(i as nat));
        assert(b.take(decimal(j as nat).len() as int) =~= decimal(j as nat));
    }
}

/// A frame has the size, the time and the hash that were decoded, and an image the size.
pub proof fn law_frames_are_those_decoded(
    f: RawFrame,
    h: HashedFrame,
    raw: RawImage,
    i: UnscaledImage,
    force_rgba: bool,
    serial: u64,
)
    ensures
        is_frame(f, force_rgba, h) ==> h.0.res == f.res && h.1 == f.shown && h.2 == f.hash,
        is_loaded(raw, force_rgba, serial, i) ==> i.0.res == raw.res && i.0.serial == serial,
{
}

} // verus!

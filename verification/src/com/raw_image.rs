//! Images as a decoder gives them, and how they are made smaller without any loss.
use image::DynamicImage::{
    ImageLuma16, ImageLuma8, ImageLumaA16, ImageLumaA8, ImageRgb16, ImageRgb8, ImageRgba16, ImageRgba8,
};
use image::ImageBuffer;
use vstd::prelude::*;

use crate::com::image::{area, Image, ImageData, Pixel};
use crate::com::res::Res;

verus! {

/// The samples of a decoded image, by the channels that each pixel has and their depth.
#[derive(Debug)]
pub enum Samples {
    Luma8(Vec<u8>),
    Luma16(Vec<u16>),
    LumaA8(Vec<u8>),
    LumaA16(Vec<u16>),
    Rgb8(Vec<u8>),
    Rgb16(Vec<u16>),
    Rgba8(Vec<u8>),
    Rgba16(Vec<u16>),
}

/// What the samples are.
pub enum SamplesView {
    Luma8(Seq<u8>),
    Luma16(Seq<u16>),
    LumaA8(Seq<u8>),
    LumaA16(Seq<u16>),
    Rgb8(Seq<u8>),
    Rgb16(Seq<u16>),
    Rgba8(Seq<u8>),
    Rgba16(Seq<u16>),
}

impl View for Samples {
    type V = SamplesView;

    open spec fn view(&self) -> SamplesView {
        match self {
            Samples::Luma8(v) => SamplesView::Luma8(v@),
            Samples::Luma16(v) => SamplesView::Luma16(v@),
            Samples::LumaA8(v) => SamplesView::LumaA8(v@),
            Samples::LumaA16(v) => SamplesView::LumaA16(v@),
            Samples::Rgb8(v) => SamplesView::Rgb8(v@),
            Samples::Rgb16(v) => SamplesView::Rgb16(v@),
            Samples::Rgba8(v) => SamplesView::Rgba8(v@),
            Samples::Rgba16(v) => SamplesView::Rgba16(v@),
        }
    }
}

impl SamplesView {
    /// How many samples there are.
    pub open spec fn count(self) -> nat {
        match self {
            SamplesView::Luma8(v) => v.len(),
            SamplesView::Luma16(v) => v.len(),
            SamplesView::LumaA8(v) => v.len(),
            SamplesView::LumaA16(v) => v.len(),
            SamplesView::Rgb8(v) => v.len(),
            SamplesView::Rgb16(v) => v.len(),
            SamplesView::Rgba8(v) => v.len(),
            SamplesView::Rgba16(v) => v.len(),
        }
    }

    /// How many samples a pixel has.
    pub open spec fn channels(self) -> nat {
        match self {
            SamplesView::Luma8(_) | SamplesView::Luma16(_) => 1,
            SamplesView::LumaA8(_) | SamplesView::LumaA16(_) => 2,
            SamplesView::Rgb8(_) | SamplesView::Rgb16(_) => 3,
            SamplesView::Rgba8(_) | SamplesView::Rgba16(_) => 4,
        }
    }
}

/// A decoded image.
#[derive(Debug)]
pub struct RawImage {
    pub res: Res,
    pub samples: Samples,
}

impl RawImage {
    /// Whether there are as many samples as the resolution says, and its bytes can be counted.
    pub open spec fn wf(self) -> bool {
        usable(self.res, self.samples@)
    }
}

/// Whether there are as many samples as a resolution says, and their bytes can be counted.
pub open spec fn usable(res: Res, s: SamplesView) -> bool {
    &&& s.count() == area(res) * s.channels()
    &&& area(res) * 4 <= isize::MAX
    &&& res.w * 4 <= isize::MAX
}

/// The pixels of an image with red, green, blue and alpha of eight bits.
pub uninterp spec fn rgba8_of(res: Res, samples: SamplesView) -> Seq<u8>;

/// The pixels of an image with red, green and blue of eight bits.
pub uninterp spec fn rgb8_of(res: Res, samples: SamplesView) -> Seq<u8>;

/// The pixels of an image in grey of eight bits.
pub uninterp spec fn luma8_of(res: Res, samples: SamplesView) -> Seq<u8>;

/// The pixels of an image in grey and alpha of eight bits.
pub uninterp spec fn luma_alpha8_of(res: Res, samples: SamplesView) -> Seq<u8>;

/// `image::DynamicImage`, an image of the image crate.
#[verifier::external_type_specification]
#[verifier::external_body]
pub struct ExDynamicImage(image::DynamicImage);

/// `image::ImageBuffer::from_raw` makes an image of the image crate of samples, if they are as many as
/// its resolution says. Nothing is claimed of the result, which only the functions below look
/// into.
#[verifier::external_body]
fn to_dynamic(w: u32, h: u32, samples: Samples) -> (r: Option<image::DynamicImage>) {
    Some(match samples {
        Samples::Luma8(v) => ImageLuma8(ImageBuffer::from_raw(w, h, v)?),
        Samples::Luma16(v) => ImageLuma16(ImageBuffer::from_raw(w, h, v)?),
        Samples::LumaA8(v) => ImageLumaA8(ImageBuffer::from_raw(w, h, v)?),
        Samples::LumaA16(v) => ImageLumaA16(ImageBuffer::from_raw(w, h, v)?),
        Samples::Rgb8(v) => ImageRgb8(ImageBuffer::from_raw(w, h, v)?),
        Samples::Rgb16(v) => ImageRgb16(ImageBuffer::from_raw(w, h, v)?),
        Samples::Rgba8(v) => ImageRgba8(ImageBuffer::from_raw(w, h, v)?),
        Samples::Rgba16(v) => ImageRgba16(ImageBuffer::from_raw(w, h, v)?),
    })
}

/// `image::DynamicImage::into_rgba8`: four bytes for each pixel, which depend on the image alone.
/// An image that has them already is returned as it is.
#[verifier::external_body]
fn into_rgba8(raw: RawImage) -> (r: Vec<u8>)
    requires
        raw.wf(),
    ensures
        r@ == rgba8_of(raw.res, raw.samples@),
        r@.len() == area(raw.res) * 4,
        raw.samples@ matches SamplesView::Rgba8(v) ==> r@ == v,
{
    to_dynamic(raw.res.w, raw.res.h, raw.samples).unwrap().into_rgba8().into_vec()
}

/// `image::DynamicImage::into_rgb8`: three bytes for each pixel, which depend on the image alone.
#[verifier::external_body]
fn into_rgb8(raw: RawImage) -> (r: Vec<u8>)
    requires
        raw.wf(),
    ensures
        r@ == rgb8_of(raw.res, raw.samples@),
        r@.len() == area(raw.res) * 3,
{
    to_dynamic(raw.res.w, raw.res.h, raw.samples).unwrap().into_rgb8().into_vec()
}

/// `image::DynamicImage::into_luma8`: one byte for each pixel, which depends on the image alone.
#[verifier::external_body]
fn into_luma8(raw: RawImage) -> (r: Vec<u8>)
    requires
        raw.wf(),
    ensures
        r@ == luma8_of(raw.res, raw.samples@),
        r@.len() == area(raw.res),
{
    to_dynamic(raw.res.w, raw.res.h, raw.samples).unwrap().into_luma8().into_vec()
}

/// `image::DynamicImage::into_luma_alpha8`: two bytes for each pixel, which depend on the image
/// alone.
#[verifier::external_body]
fn into_luma_alpha8(raw: RawImage) -> (r: Vec<u8>)
    requires
        raw.wf(),
    ensures
        r@ == luma_alpha8_of(raw.res, raw.samples@),
        r@.len() == area(raw.res) * 2,
{
    to_dynamic(raw.res.w, raw.res.h, raw.samples).unwrap().into_luma_alpha8().into_vec()
}

/// Whether three samples of a pixel in a row are the same, as they are in grey.
pub open spec fn grey_at<T>(v: Seq<T>, i: int) -> bool {
    v[i] == v[i + 1] && v[i + 1] == v[i + 2]
}

/// Whether all pixels of three samples are grey.
pub open spec fn grey_rgb<T>(v: Seq<T>) -> bool {
    forall|k: int| 0 <= k < v.len() / 3 ==> #[trigger] grey_at(v, 3 * k)
}

/// Whether all pixels of four samples are grey.
pub open spec fn grey_rgba(v: Seq<u8>) -> bool {
    forall|k: int| 0 <= k < v.len() / 4 ==> #[trigger] grey_at(v, 4 * k)
}

/// Whether a sample is that of an opaque pixel.
pub open spec fn opaque_at(v: Seq<u8>, i: int) -> bool {
    v[i] == 255
}

/// Whether all pixels of four samples are opaque.
pub open spec fn opaque_rgba(v: Seq<u8>) -> bool {
    forall|k: int| 0 <= k < v.len() / 4 ==> #[trigger] opaque_at(v, 4 * k + 3)
}

/// The grey values of pixels of three samples.
pub open spec fn first_of_three(v: Seq<u8>) -> Seq<u8> {
    Seq::new(v.len() / 3, |k: int| v[3 * k])
}

/// The grey values of pixels of four samples.
pub open spec fn first_of_four(v: Seq<u8>) -> Seq<u8> {
    Seq::new(v.len() / 4, |k: int| v[4 * k])
}

/// The grey and alpha values of pixels of four samples.
pub open spec fn grey_and_alpha(v: Seq<u8>) -> Seq<u8> {
    Seq::new(
        (v.len() / 4) * 2,
        |i: int|
            if i % 2 == 0 {
                v[4 * (i / 2)]
            } else {
                v[4 * (i / 2) + 3]
            },
    )
}

/// The colours of pixels of four samples.
pub open spec fn without_alpha(v: Seq<u8>) -> Seq<u8> {
    Seq::new((v.len() / 4) * 3, |i: int| v[4 * (i / 3) + i % 3])
}

/// What is kept of pixels of red, green, blue and alpha.
pub open spec fn compact_rgba(v: Seq<u8>, d: ImageData) -> bool {
    if grey_rgba(v) && opaque_rgba(v) {
        d matches ImageData::Grey(g) && g@ == first_of_four(v)
    } else if grey_rgba(v) {
        d matches ImageData::GreyA(g) && g@ == grey_and_alpha(v)
    } else if opaque_rgba(v) {
        d matches ImageData::Rgb(g) && g@ == without_alpha(v)
    } else {
        d matches ImageData::Rgba(g) && g@ == v
    }
}

/// What is kept of a decoded image: as few channels as show it as it is.
pub open spec fn compact(res: Res, s: SamplesView, force_rgba: bool, d: ImageData) -> bool {
    if force_rgba {
        d matches ImageData::Rgba(g) && g@ == rgba8_of(res, s)
    } else {
        match s {
            SamplesView::Luma8(v) => d matches ImageData::Grey(g) && g@ == v,
            SamplesView::Luma16(_) => d matches ImageData::Grey(g) && g@ == luma8_of(res, s),
            SamplesView::LumaA8(v) => d matches ImageData::GreyA(g) && g@ == v,
            SamplesView::LumaA16(_) => d matches ImageData::GreyA(g) && g@ == luma_alpha8_of(res, s),
            SamplesView::Rgb8(v) => if grey_rgb(v) {
                d matches ImageData::Grey(g) && g@ == first_of_three(v)
            } else {
                d matches ImageData::Rgb(g) && g@ == v
            },
            SamplesView::Rgb16(v) => if grey_rgb(v) {
                d matches ImageData::Grey(g) && g@ == luma8_of(res, s)
            } else {
                d matches ImageData::Rgb(g) && g@ == rgb8_of(res, s)
            },
            SamplesView::Rgba8(v) => compact_rgba(v, d),
            SamplesView::Rgba16(_) => compact_rgba(rgba8_of(res, s), d),
        }
    }
}

fn is_grey_rgb8(v: &Vec<u8>) -> (r: bool)
    ensures
        r == grey_rgb(v@),
{
    let mut k: usize = 0;
    while k < v.len() / 3
        invariant
            k <= v@.len() / 3,
            forall|j: int| 0 <= j < k ==> #[trigger] grey_at(v@, 3 * j),
        decreases v.len() / 3 - k,
    {
        if !(v[3 * k] == v[3 * k + 1] && v[3 * k + 1] == v[3 * k + 2]) {
            assert(!grey_at(v@, 3 * (k as int)));
            return false;
        }
        k += 1;
    }
    true
}

fn is_grey_rgb16(v: &Vec<u16>) -> (r: bool)
    ensures
        r == grey_rgb(v@),
{
    let mut k: usize = 0;
    while k < v.len() / 3
        invariant
            k <= v@.len() / 3,
            forall|j: int| 0 <= j < k ==> #[trigger] grey_at(v@, 3 * j),
        decreases v.len() / 3 - k,
    {
        if !(v[3 * k] == v[3 * k + 1] && v[3 * k + 1] == v[3 * k + 2]) {
            assert(!grey_at(v@, 3 * (k as int)));
            return false;
        }
        k += 1;
    }
    true
}

fn is_grey_rgba(v: &Vec<u8>) -> (r: bool)
    ensures
        r == grey_rgba(v@),
{
    let mut k: usize = 0;
    while k < v.len() / 4
        invariant
            k <= v@.len() / 4,
            forall|j: int| 0 <= j < k ==> #[trigger] grey_at(v@, 4 * j),
        decreases v.len() / 4 - k,
    {
        if !(v[4 * k] == v[4 * k + 1] && v[4 * k + 1] == v[4 * k + 2]) {
            assert(!grey_at(v@, 4 * (k as int)));
            return false;
        }
        k += 1;
    }
    true
}

fn is_opaque(v: &Vec<u8>) -> (r: bool)
    ensures
        r == opaque_rgba(v@),
{
    let mut k: usize = 0;
    while k < v.len() / 4
        invariant
            k <= v@.len() / 4,
            forall|j: int| 0 <= j < k ==> #[trigger] opaque_at(v@, 4 * j + 3),
        decreases v.len() / 4 - k,
    {
        if v[4 * k + 3] != 255 {
            assert(!opaque_at(v@, 4 * (k as int) + 3));
            return false;
        }
        k += 1;
    }
    true
}

fn take_first_of_three(v: &Vec<u8>) -> (r: Vec<u8>)
    ensures
        r@ == first_of_three(v@),
{
    let mut r: Vec<u8> = Vec::new();
    let mut k: usize = 0;
    while k < v.len() / 3
        invariant
            k <= v@.len() / 3,
            r@.len() == k,
            forall|j: int| 0 <= j < k ==> #[trigger] r@[j] == v@[3 * j],
        decreases v.len() / 3 - k,
    {
        r.push(v[3 * k]);
        k += 1;
    }
    assert(r@ =~= first_of_three(v@));
    r
}

fn take_first_of_four(v: &Vec<u8>) -> (r: Vec<u8>)
    ensures
        r@ == first_of_four(v@),
{
    let mut r: Vec<u8> = Vec::new();
    let mut k: usize = 0;
    while k < v.len() / 4
        invariant
            k <= v@.len() / 4,
            r@.len() == k,
            forall|j: int| 0 <= j < k ==> #[trigger] r@[j] == v@[4 * j],
        decreases v.len() / 4 - k,
    {
        r.push(v[4 * k]);
        k += 1;
    }
    assert(r@ =~= first_of_four(v@));
    r
}

fn take_grey_and_alpha(v: &Vec<u8>) -> (r: Vec<u8>)
    ensures
        r@ == grey_and_alpha(v@),
{
    let mut r: Vec<u8> = Vec::new();
    let mut k: usize = 0;
    while k < v.len() / 4
        invariant
            k <= v@.len() / 4,
            r@ == grey_and_alpha(v@).take(2 * k),
        decreases v.len() / 4 - k,
    {
        r.push(v[4 * k]);
        r.push(v[4 * k + 3]);
        k += 1;
        proof {
            let g = grey_and_alpha(v@);
            assert(g[2 * k - 2] == v@[4 * k - 4]);
            assert(g[2 * k - 1] == v@[4 * k - 1]);
            assert(g.take(2 * k as int) =~= g.take(2 * k - 2).push(g[2 * k - 2]).push(g[2 * k - 1]));
        }
    }
    assert(r@ =~= grey_and_alpha(v@));
    r
}

fn take_without_alpha(v: &Vec<u8>) -> (r: Vec<u8>)
    ensures
        r@ == without_alpha(v@),
{
    let mut r: Vec<u8> = Vec::new();
    let mut k: usize = 0;
    while k < v.len() / 4
        invariant
            k <= v@.len() / 4,
            r@ == without_alpha(v@).take(3 * k),
        decreases v.len() / 4 - k,
    {
        r.push(v[4 * k]);
        r.push(v[4 * k + 1]);
        r.push(v[4 * k + 2]);
        k += 1;
        proof {
            let g = without_alpha(v@);
            assert(g[3 * k - 3] == v@[4 * k - 4]);
            assert(g[3 * k - 2] == v@[4 * k - 3]);
            assert(g[3 * k - 1] == v@[4 * k - 2]);
            assert(g.take(3 * k as int) =~= g.take(3 * k - 3).push(g[3 * k - 3]).push(
                g[3 * k - 2],
            ).push(g[3 * k - 1]));
        }
    }
    assert(r@ =~= without_alpha(v@));
    r
}

/// Keeps as few channels of pixels of red, green, blue and alpha as show them as they are.
pub fn compact_rgba_buffer(v: Vec<u8>) -> (d: ImageData)
    ensures
        compact_rgba(v@, d),
{
    let grey: bool = is_grey_rgba(&v);
    let opaque: bool = is_opaque(&v);
    if grey && opaque {
        ImageData::Grey(take_first_of_four(&v))
    } else if grey {
        ImageData::GreyA(take_grey_and_alpha(&v))
    } else if opaque {
        ImageData::Rgb(take_without_alpha(&v))
    } else {
        ImageData::Rgba(v)
    }
}

impl Image {
    /// The image of a decoded one, with as few channels as show it as it is, unless all four are
    /// wanted.
    pub fn from_raw(raw: RawImage, force_rgba: bool, serial: u64) -> (r: Image)
        requires
            raw.wf(),
        ensures
            r.wf(),
            r.res == raw.res,
            r.serial == serial,
            compact(raw.res, raw.samples@, force_rgba, r.data()),
            raw.samples@ matches SamplesView::Rgba8(v) ==> forall|k: int|
                0 <= k < area(raw.res) ==> #[trigger] r.data().pixel(k) == rgba_pixel(v, k),
            !force_rgba ==> (raw.samples@ matches SamplesView::Rgb8(v) ==> forall|k: int|
                0 <= k < area(raw.res) ==> #[trigger] r.data().pixel(k) == rgb_pixel(v, k)),
    {
        let res = raw.res;
        let ghost n = area(res);
        assert(n * 1 == n);
        let ghost samples = raw.samples@;
        if force_rgba {
            return Image::from_data(ImageData::Rgba(into_rgba8(raw)), res, serial);
        }
        let deep_rgb: Option<bool> = match &raw.samples {
            Samples::Rgb16(v) => Some(is_grey_rgb16(v)),
            _ => None,
        };
        match deep_rgb {
            Some(true) => return Image::from_data(ImageData::Grey(into_luma8(raw)), res, serial),
            Some(false) => return Image::from_data(ImageData::Rgb(into_rgb8(raw)), res, serial),
            None => {},
        }
        let data = match raw.samples {
            Samples::Luma8(v) => ImageData::Grey(v),
            Samples::Luma16(v) => ImageData::Grey(
                into_luma8(RawImage { res, samples: Samples::Luma16(v) }),
            ),
            Samples::LumaA8(v) => ImageData::GreyA(v),
            Samples::LumaA16(v) => ImageData::GreyA(
                into_luma_alpha8(RawImage { res, samples: Samples::LumaA16(v) }),
            ),
            Samples::Rgb8(v) => if is_grey_rgb8(&v) {
                ImageData::Grey(take_first_of_three(&v))
            } else {
                ImageData::Rgb(v)
            },
            Samples::Rgb16(v) => ImageData::Rgb(
                into_rgb8(RawImage { res, samples: Samples::Rgb16(v) }),
            ),
            Samples::Rgba8(v) => compact_rgba_buffer(v),
            Samples::Rgba16(v) => compact_rgba_buffer(
                into_rgba8(RawImage { res, samples: Samples::Rgba16(v) }),
            ),
        };
        proof {
            assert(compact(res, samples, false, data));
            match samples {
                SamplesView::Rgba8(v) => {
                    assert forall|k: int| 0 <= k < n implies #[trigger] data.pixel(k) == rgba_pixel(
                        v,
                        k,
                    ) by {
                        law_compact_keeps_pixels(v, data, k);
                    }
                },
                SamplesView::Rgb8(v) => {
                    assert forall|k: int| 0 <= k < n implies #[trigger] data.pixel(k) == rgb_pixel(
                        v,
                        k,
                    ) by {
                        law_colours_are_kept(res, v, data, k);
                    }
                },
                _ => {},
            }
        }
        Image::from_data(data, res, serial)
    }
}

/// The pixel of a given number of those with red, green and blue. All are opaque.
pub open spec fn rgb_pixel(v: Seq<u8>, k: int) -> Pixel {
    (v[3 * k], v[3 * k + 1], v[3 * k + 2], 255)
}

/// The pixel of a given number of those with red, green, blue and alpha.
pub open spec fn rgba_pixel(v: Seq<u8>, k: int) -> Pixel {
    (v[4 * k], v[4 * k + 1], v[4 * k + 2], v[4 * k + 3])
}

/// Leaving channels out changes no pixel.
pub proof fn law_compact_keeps_pixels(v: Seq<u8>, d: ImageData, k: int)
    requires
        compact_rgba(v, d),
        0 <= k < v.len() / 4,
    ensures
        d.pixel(k) == rgba_pixel(v, k),
{
    if grey_rgba(v) {
        assert(grey_at(v, 4 * k));
    }
    if opaque_rgba(v) {
        assert(opaque_at(v, 4 * k + 3));
    }
    if d is GreyA {
        let g = grey_and_alpha(v);
        assert(g[2 * k] == v[4 * k]);
        assert(g[2 * k + 1] == v[4 * k + 3]);
    }
    if d is Rgb {
        let g = without_alpha(v);
        assert(g[3 * k] == v[4 * k]);
        assert(g[3 * k + 1] == v[4 * k + 1]);
        assert(g[3 * k + 2] == v[4 * k + 2]);
    }
}

/// An image of red, green and blue shows the same colours once channels are left out, and all of it
/// is opaque.
pub proof fn law_colours_are_kept(res: Res, v: Seq<u8>, d: ImageData, k: int)
    requires
        compact(res, SamplesView::Rgb8(v), false, d),
        0 <= k < v.len() / 3,
    ensures
        d.pixel(k) == (v[3 * k], v[3 * k + 1], v[3 * k + 2], 255u8),
{
    if grey_rgb(v) {
        assert(grey_at(v, 3 * k));
    }
}

/// An image in grey shows the same grey once it is loaded. All of it is opaque.
pub proof fn law_grey_is_kept(res: Res, v: Seq<u8>, d: ImageData, k: int)
    requires
        compact(res, SamplesView::Luma8(v), false, d),
        0 <= k < v.len(),
    ensures
        d.pixel(k) == (v[k], v[k], v[k], 255u8),
{
}

/// An image in grey and alpha shows the same grey, as opaque as before.
pub proof fn law_grey_and_alpha_are_kept(res: Res, v: Seq<u8>, d: ImageData, k: int)
    requires
        compact(res, SamplesView::LumaA8(v), false, d),
        0 <= k < v.len() / 2,
    ensures
        d.pixel(k) == (v[2 * k], v[2 * k], v[2 * k], v[2 * k + 1]),
{
}

/// An image of red, green, blue and alpha shows the same pixels, whether channels are left out or
/// not.
pub proof fn law_all_channels_are_kept(res: Res, v: Seq<u8>, d: ImageData, k: int)
    requires
        compact(res, SamplesView::Rgba8(v), false, d),
        0 <= k < v.len() / 4,
    ensures
        d.pixel(k) == (v[4 * k], v[4 * k + 1], v[4 * k + 2], v[4 * k + 3]),
{
    law_compact_keeps_pixels(v, d, k);
}

/// A deeper image shows what it is in eight bits: in grey where all of it is, and in colour where
/// some of it is not. Only an image without alpha becomes opaque.
pub proof fn law_deep_image_is_kept(res: Res, s: SamplesView, d: ImageData, k: int)
    requires
        compact(res, s, false, d),
        0 <= k < s.count() / s.channels(),
    ensures
        s is Luma16 ==> d.pixel(k) == (
            luma8_of(res, s)[k],
            luma8_of(res, s)[k],
            luma8_of(res, s)[k],
            255u8,
        ),
        s is LumaA16 ==> d.pixel(k) == (
            luma_alpha8_of(res, s)[2 * k],
            luma_alpha8_of(res, s)[2 * k],
            luma_alpha8_of(res, s)[2 * k],
            luma_alpha8_of(res, s)[2 * k + 1],
        ),
        s matches SamplesView::Rgb16(v) ==> (v[3 * k] != v[3 * k + 1] || v[3 * k + 1] != v[3 * k
            + 2] ==> d.pixel(k) == (
            rgb8_of(res, s)[3 * k],
            rgb8_of(res, s)[3 * k + 1],
            rgb8_of(res, s)[3 * k + 2],
            255u8,
        )),
        s is Rgba16 && k < rgba8_of(res, s).len() / 4 ==> d.pixel(k) == (
            rgba8_of(res, s)[4 * k],
            rgba8_of(res, s)[4 * k + 1],
            rgba8_of(res, s)[4 * k + 2],
            rgba8_of(res, s)[4 * k + 3],
        ),
{
    match s {
        SamplesView::Rgb16(v) => {
            if grey_rgb(v) {
                assert(grey_at(v, 3 * k));
            }
        },
        SamplesView::Rgba16(_) => {
            if k < rgba8_of(res, s).len() / 4 {
                law_compact_keeps_pixels(rgba8_of(res, s), d, k);
            }
        },
        _ => {},
    }
}

/// Where all four channels are wanted, they are there, and no pixel is changed.
pub proof fn law_forced_channels(res: Res, s: SamplesView, d: ImageData, k: int)
    requires
        compact(res, s, true, d),
    ensures
        d is Rgba,
        d.pixel(k) == (
            rgba8_of(res, s)[4 * k],
            rgba8_of(res, s)[4 * k + 1],
            rgba8_of(res, s)[4 * k + 2],
            rgba8_of(res, s)[4 * k + 3],
        ),
{
}

/// No channel is kept that shows nothing: some pixel is coloured where colours are kept, and some
/// pixel is not opaque where alpha is.
pub proof fn law_no_needless_channels(res: Res, s: SamplesView, d: ImageData)
    requires
        compact(res, s, false, d),
        s is Rgb8 || s is Rgba8,
    ensures
        d is Rgb || d is Rgba ==> exists|k: int|
            0 <= k < s.count() / s.channels() && {
                let p = #[trigger] d.pixel(k);
                p.0 != p.1 || p.1 != p.2
            },
        d is GreyA || d is Rgba ==> exists|k: int|
            0 <= k < s.count() / s.channels() && (#[trigger] d.pixel(k)).3 != 255,
{
    match s {
        SamplesView::Rgb8(v) => {
            if d is Rgb {
                let k = choose|k: int| 0 <= k < v.len() / 3 && !#[trigger] grey_at(v, 3 * k);
                law_colours_are_kept(res, v, d, k);
                assert(d.pixel(k).0 != d.pixel(k).1 || d.pixel(k).1 != d.pixel(k).2);
            }
        },
        SamplesView::Rgba8(v) => {
            if d is Rgb || d is Rgba {
                let k = choose|k: int| 0 <= k < v.len() / 4 && !#[trigger] grey_at(v, 4 * k);
                law_compact_keeps_pixels(v, d, k);
                assert(d.pixel(k).0 != d.pixel(k).1 || d.pixel(k).1 != d.pixel(k).2);
            }
            if d is GreyA || d is Rgba {
                let k = choose|k: int| 0 <= k < v.len() / 4 && !#[trigger] opaque_at(v, 4 * k + 3);
                law_compact_keeps_pixels(v, d, k);
                assert(d.pixel(k).3 != 255);
            }
        },
        _ => {},
    }
}

} // verus!

//! Images in memory.
use std::sync::Arc;

use vstd::prelude::*;

use crate::com::res::Res;

verus! {

/// What a texture of an image is made of.
#[derive(Clone, Copy, Debug, PartialEq, Eq, Structural)]
pub enum GlFormat {
    Rgba,
    Rgb,
    Rg,
    Red,
}

/// Which channel of a texture a colour is taken from.
#[derive(Clone, Copy, Debug, PartialEq, Eq, Structural)]
pub enum GlChannel {
    Red,
    Green,
    Blue,
    Alpha,
}

/// Which channel of a texture each colour is taken from.
#[derive(Clone, Copy, Debug, PartialEq, Eq, Structural)]
pub struct Swizzle {
    pub red: GlChannel,
    pub green: GlChannel,
    pub blue: GlChannel,
    pub alpha: GlChannel,
}

/// How the bytes of an image are laid out for a texture.
#[derive(Clone, Copy, Debug, PartialEq, Eq, Structural)]
pub struct GLLayout {
    pub format: GlFormat,
    pub swizzle: Swizzle,
    pub alignment: i32,
}

/// The bytes of an image, by the channels that each pixel has.
#[derive(Debug)]
pub enum ImageData {
    Rgba(Vec<u8>),
    Rgb(Vec<u8>),
    GreyA(Vec<u8>),
    Grey(Vec<u8>),
}

/// A pixel as red, green, blue and alpha.
pub type Pixel = (u8, u8, u8, u8);

impl ImageData {
    /// The bytes.
    pub open spec fn spec_bytes(self) -> Seq<u8> {
        match self {
            ImageData::Rgba(v) => v@,
            ImageData::Rgb(v) => v@,
            ImageData::GreyA(v) => v@,
            ImageData::Grey(v) => v@,
        }
    }

    /// How many bytes a pixel has.
    pub open spec fn spec_channels(self) -> nat {
        match self {
            ImageData::Rgba(_) => 4,
            ImageData::Rgb(_) => 3,
            ImageData::GreyA(_) => 2,
            ImageData::Grey(_) => 1,
        }
    }

    /// The pixel of a given number.
    pub open spec fn pixel(self, k: int) -> Pixel {
        let b = self.spec_bytes();
        match self {
            ImageData::Rgba(_) => (b[4 * k], b[4 * k + 1], b[4 * k + 2], b[4 * k + 3]),
            ImageData::Rgb(_) => (b[3 * k], b[3 * k + 1], b[3 * k + 2], 255),
            ImageData::GreyA(_) => (b[2 * k], b[2 * k], b[2 * k], b[2 * k + 1]),
            ImageData::Grey(_) => (b[k], b[k], b[k], 255),
        }
    }

    /// The layout of a texture of the image.
    pub open spec fn spec_gl_layout(self) -> GLLayout {
        match self {
            ImageData::Rgba(_) => GLLayout {
                format: GlFormat::Rgba,
                swizzle: Swizzle {
                    red: GlChannel::Red,
                    green: GlChannel::Green,
                    blue: GlChannel::Blue,
                    alpha: GlChannel::Alpha,
                },
                alignment: 4,
            },
            ImageData::Rgb(_) => GLLayout {
                format: GlFormat::Rgb,
                swizzle: Swizzle {
                    red: GlChannel::Red,
                    green: GlChannel::Green,
                    blue: GlChannel::Blue,
                    alpha: GlChannel::Alpha,
                },
                alignment: 1,
            },
            ImageData::GreyA(_) => GLLayout {
                format: GlFormat::Rg,
                swizzle: Swizzle {
                    red: GlChannel::Red,
                    green: GlChannel::Red,
                    blue: GlChannel::Red,
                    alpha: GlChannel::Green,
                },
                alignment: 2,
            },
            ImageData::Grey(_) => GLLayout {
                format: GlFormat::Red,
                swizzle: Swizzle {
                    red: GlChannel::Red,
                    green: GlChannel::Red,
                    blue: GlChannel::Red,
                    alpha: GlChannel::Alpha,
                },
                alignment: 1,
            },
        }
    }

    /// The bytes.
    pub fn bytes(&self) -> (r: &Vec<u8>)
        ensures
            r@ == self.spec_bytes(),
    {
        match self {
            ImageData::Rgba(v) => v,
            ImageData::Rgb(v) => v,
            ImageData::GreyA(v) => v,
            ImageData::Grey(v) => v,
        }
    }

    /// How many bytes a pixel has.
    pub fn channels(&self) -> (r: usize)
        ensures
            r == self.spec_channels(),
    {
        match self {
            ImageData::Rgba(_) => 4,
            ImageData::Rgb(_) => 3,
            ImageData::GreyA(_) => 2,
            ImageData::Grey(_) => 1,
        }
    }

    /// The layout of a texture of the image.
    pub fn gl_layout(&self) -> (r: GLLayout)
        ensures
            r == self.spec_gl_layout(),
    {
        match self {
            ImageData::Rgba(_) => GLLayout {
                format: GlFormat::Rgba,
                swizzle: Swizzle {
                    red: GlChannel::Red,
                    green: GlChannel::Green,
                    blue: GlChannel::Blue,
                    alpha: GlChannel::Alpha,
                },
                alignment: 4,
            },
            ImageData::Rgb(_) => GLLayout {
                format: GlFormat::Rgb,
                swizzle: Swizzle {
                    red: GlChannel::Red,
                    green: GlChannel::Green,
                    blue: GlChannel::Blue,
                    alpha: GlChannel::Alpha,
                },
                alignment: 1,
            },
            // Green becomes alpha after the conversion from sRGB, which the shader reverts.
            ImageData::GreyA(_) => GLLayout {
                format: GlFormat::Rg,
                swizzle: Swizzle {
                    red: GlChannel::Red,
                    green: GlChannel::Red,
                    blue: GlChannel::Red,
                    alpha: GlChannel::Green,
                },
                alignment: 2,
            },
            ImageData::Grey(_) => GLLayout {
                format: GlFormat::Red,
                swizzle: Swizzle {
                    red: GlChannel::Red,
                    green: GlChannel::Red,
                    blue: GlChannel::Red,
                    alpha: GlChannel::Alpha,
                },
                alignment: 1,
            },
        }
    }

    /// Whether a pixel is grey with alpha.
    pub fn grey_alpha(&self) -> (r: bool)
        ensures
            r == (self is GreyA),
    {
        match self {
            ImageData::Rgba(_) | ImageData::Rgb(_) | ImageData::Grey(_) => false,
            ImageData::GreyA(_) => true,
        }
    }

    /// The name of the kind of pixels.
    pub fn format(&self) -> (r: &'static str)
        ensures
            r@ == match *self {
                ImageData::Rgba(_) => "rgba"@,
                ImageData::Rgb(_) => "rgb"@,
                ImageData::GreyA(_) => "greya"@,
                ImageData::Grey(_) => "grey"@,
            },
    {
        match self {
            ImageData::Rgba(_) => "rgba",
            ImageData::Rgb(_) => "rgb",
            ImageData::GreyA(_) => "greya",
            ImageData::Grey(_) => "grey",
        }
    }
}

/// How many pixels there are.
pub open spec fn area(res: Res) -> nat {
    res.w as nat * res.h as nat
}

/// An image. Copies of one image share its bytes and its serial number, by which they are told
/// from other images.
#[derive(Debug)]
pub struct Image {
    pub data: Arc<ImageData>,
    pub res: Res,
    /// How many bytes a row has.
    pub stride: usize,
    pub serial: u64,
}

impl Image {
    pub open spec fn data(self) -> ImageData {
        *self.data
    }

    /// Whether there are as many bytes as the resolution says.
    pub open spec fn wf(self) -> bool {
        &&& self.data().spec_bytes().len() == area(self.res) * self.data().spec_channels()
        &&& self.stride == self.res.w * self.data().spec_channels()
    }

    /// Whether two images are copies of one another.
    pub open spec fn same(self, other: Image) -> bool {
        self.serial == other.serial && self.res == other.res && self.stride == other.stride
    }

    /// An image of some bytes.
    pub fn from_data(data: ImageData, res: Res, serial: u64) -> (r: Image)
        requires
            data.spec_bytes().len() == area(res) * data.spec_channels(),
            res.w * data.spec_channels() <= usize::MAX,
        ensures
            r.wf(),
            r.data() == data,
            r.res == res,
            r.serial == serial,
    {
        let stride: usize = (res.w as usize) * data.channels();
        Image { data: Arc::new(data), res, stride, serial }
    }

    /// A copy that shares the bytes.
    pub fn share(&self) -> (r: Image)
        ensures
            r == *self,
    {
        Image { data: self.data.clone(), res: self.res, stride: self.stride, serial: self.serial }
    }

    /// Whether two images are copies of one another.
    pub fn is_same(&self, other: &Image) -> (r: bool)
        ensures
            r == self.same(*other),
    {
        self.serial == other.serial && self.res == other.res && self.stride == other.stride
    }

    /// The bytes.
    pub fn as_ptr(&self) -> (r: &[u8])
        ensures
            r@ == self.data().spec_bytes(),
    {
        self.data.bytes().as_slice()
    }

    /// The bytes from a pixel on, for images that are too large to be drawn at once.
    pub fn as_offset_ptr(&self, x: u32, y: u32) -> (r: &[u8])
        requires
            self.wf(),
            x < self.res.w,
            y < self.res.h,
        ensures
            r@ == self.data().spec_bytes().skip(y * self.stride + x * self.data().spec_channels()),
            r@.len() > 0,
    {
        let channels: usize = self.data.channels();
        let bytes = self.data.bytes();
        proof {
            lemma_pixel_inside(self.res, self.data().spec_channels(), x, y, self.stride);
            assert(bytes.len() <= usize::MAX);
        }
        let offset: usize = (y as usize) * self.stride + (x as usize) * channels;
        vstd::slice::slice_subrange(bytes.as_slice(), offset, bytes.len())
    }

    /// The image that resampling gives: the same kind of pixels in another resolution.
    pub fn downscale(&self, target_res: Res, resampled: Vec<u8>, serial: u64) -> (r: Image)
        requires
            resampled@.len() == area(target_res) * self.data().spec_channels(),
            target_res.w * self.data().spec_channels() <= usize::MAX,
        ensures
            r.wf(),
            r.res == target_res,
            r.serial == serial,
            r.data().spec_bytes() == resampled@,
            r.data() is Rgba <==> self.data() is Rgba,
            r.data() is Rgb <==> self.data() is Rgb,
            r.data() is GreyA <==> self.data() is GreyA,
    {
        let data = match &*self.data {
            ImageData::Rgba(_) => ImageData::Rgba(resampled),
            ImageData::Rgb(_) => ImageData::Rgb(resampled),
            ImageData::GreyA(_) => ImageData::GreyA(resampled),
            ImageData::Grey(_) => ImageData::Grey(resampled),
        };
        Image::from_data(data, target_res, serial)
    }

    /// How many bytes a pixel has.
    pub fn channels(&self) -> (r: usize)
        ensures
            r == self.data().spec_channels(),
    {
        self.data.channels()
    }

    /// The layout of a texture of the image.
    pub fn gl_layout(&self) -> (r: GLLayout)
        ensures
            r == self.data().spec_gl_layout(),
    {
        self.data.gl_layout()
    }

    /// Whether a pixel is grey with alpha.
    pub fn grey_alpha(&self) -> (r: bool)
        ensures
            r == (self.data() is GreyA),
    {
        self.data.grey_alpha()
    }
}

/// What a texture of some bytes holds in a channel of a pixel. A channel that the texture does not
/// have is nought, but alpha is then opaque.
pub open spec fn texel(bytes: Seq<u8>, format: GlFormat, k: int, c: GlChannel) -> u8 {
    let channels: int = match format {
        GlFormat::Rgba => 4,
        GlFormat::Rgb => 3,
        GlFormat::Rg => 2,
        GlFormat::Red => 1,
    };
    let i: int = match c {
        GlChannel::Red => 0,
        GlChannel::Green => 1,
        GlChannel::Blue => 2,
        GlChannel::Alpha => 3,
    };
    if i < channels {
        bytes[channels * k + i]
    } else if c is Alpha {
        255
    } else {
        0
    }
}

/// A texture of an image shows its pixels, and its rows follow one another without a gap.
pub proof fn law_texture_shows_pixels(d: ImageData, k: int)
    ensures
        ({
            let l = d.spec_gl_layout();
            let b = d.spec_bytes();
            d.pixel(k) == (
                texel(b, l.format, k, l.swizzle.red),
                texel(b, l.format, k, l.swizzle.green),
                texel(b, l.format, k, l.swizzle.blue),
                texel(b, l.format, k, l.swizzle.alpha),
            )
        }),
        d.spec_gl_layout().alignment > 0,
        d.spec_channels() % (d.spec_gl_layout().alignment as nat) == 0,
        d.spec_gl_layout().format is Rgba <==> d.spec_channels() == 4,
        d.spec_gl_layout().format is Rgb <==> d.spec_channels() == 3,
        d.spec_gl_layout().format is Rg <==> d.spec_channels() == 2,
        d.spec_gl_layout().format is Red <==> d.spec_channels() == 1,
{
    assert(4nat % 4nat == 0);
    assert(3nat % 1nat == 0);
    assert(2nat % 2nat == 0);
    assert(1nat % 1nat == 0);
    match d {
        ImageData::Rgba(_) => assert(d.spec_gl_layout().alignment as nat == 4),
        ImageData::Rgb(_) => assert(d.spec_gl_layout().alignment as nat == 1),
        ImageData::GreyA(_) => assert(d.spec_gl_layout().alignment as nat == 2),
        ImageData::Grey(_) => assert(d.spec_gl_layout().alignment as nat == 1),
    }
}

/// The bytes from a pixel on begin with that pixel.
pub proof fn law_bytes_begin_with_pixel(i: Image, x: u32, y: u32, c: int)
    requires
        i.wf(),
        x < i.res.w,
        y < i.res.h,
        0 <= c < i.data().spec_channels(),
    ensures
        ({
            let from = i.data().spec_bytes().skip(y * i.stride + x * i.data().spec_channels());
            let k = y * i.res.w + x;
            from.len() >= i.data().spec_channels() && from[c] == i.data().spec_bytes()[k
                * i.data().spec_channels() + c]
        }),
{
    lemma_pixel_inside(i.res, i.data().spec_channels(), x, y, i.stride);
    let n = i.data().spec_channels() as int;
    let (w, h) = (i.res.w as int, i.res.h as int);
    let (px, py) = (x as int, y as int);
    assert(py * (w * n) + px * n == (py * w + px) * n) by (nonlinear_arith);
    assert((py * w + px) * n + n <= (w * h) * n) by (nonlinear_arith)
        requires
            px + 1 <= w,
            py + 1 <= h,
            n > 0,
            w >= 0,
    ;
}

/// The bytes of a pixel are among those of the image.
proof fn lemma_pixel_inside(res: Res, channels: nat, x: u32, y: u32, stride: usize)
    requires
        x < res.w,
        y < res.h,
        stride == res.w * channels,
        channels >= 1,
    ensures
        0 <= y * stride,
        0 <= x * channels,
        y * stride + x * channels < area(res) * channels,
{
    assert(0 <= y * stride) by (nonlinear_arith);
    assert(0 <= x * channels) by (nonlinear_arith);
    assert(y * stride + x * channels + channels <= (res.w * res.h) * channels) by (nonlinear_arith)
        requires
            x + 1 <= res.w,
            y + 1 <= res.h,
            stride == res.w * channels,
    ;
}

} // verus!

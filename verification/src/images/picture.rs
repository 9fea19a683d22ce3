//! Pixels, and what is done with them on the way to a terminal.
use std::io::Cursor;

use image::codecs::png::PngEncoder;
use image::imageops::FilterType;
use image::ImageEncoder as _;
use image::{DynamicImage, ExtendedColorType, ImageBuffer, ImageFormat, ImageReader, RgbaImage};
use vstd::arithmetic::mul::lemma_mul_inequality;
use vstd::prelude::*;

use crate::codec::opt_bytes;
use crate::markdown::ir::opt_text;

verus! {

/// No memory holds a picture of more bytes than this.
pub const MAX_PICTURE_BYTES: u64 = 0x00ff_ffff_ffff_ffff;

/// The channels that a picture came with, which is what it is written with again.
#[derive(Debug, Clone, Copy, PartialEq, Eq, Structural)]
pub enum Channels {
    Grey,
    GreyAlpha,
    Rgb,
    Rgba,
}

impl Channels {
    /// How many there are.
    pub open spec fn count(self) -> u8 {
        match self {
            Channels::Grey => 1,
            Channels::GreyAlpha => 2,
            Channels::Rgb => 3,
            Channels::Rgba => 4,
        }
    }

    /// The channels of an image that has so many.
    pub open spec fn of(n: u8) -> Channels {
        if n == 1 {
            Channels::Grey
        } else if n == 2 {
            Channels::GreyAlpha
        } else if n == 3 {
            Channels::Rgb
        } else {
            Channels::Rgba
        }
    }

    fn number(self) -> (r: usize)
        ensures
            r == self.count(),
    {
        match self {
            Channels::Grey => 1,
            Channels::GreyAlpha => 2,
            Channels::Rgb => 3,
            Channels::Rgba => 4,
        }
    }

    pub fn from_count(n: u8) -> (r: Channels)
        ensures
            r == Channels::of(n),
    {
        if n == 1 {
            Channels::Grey
        } else if n == 2 {
            Channels::GreyAlpha
        } else if n == 3 {
            Channels::Rgb
        } else {
            Channels::Rgba
        }
    }
}

/// How finely a picture came sampled.
#[derive(Debug, PartialEq, Eq)]
pub enum Depth {
    /// A byte for each sample: those of the pixels.
    Eight,
    /// Sixteen bits for each sample of its channels, row by row.
    Sixteen(Vec<u16>),
    /// Floating point. No PNG file can hold it.
    Real,
}

pub enum DepthV {
    Eight,
    Sixteen(Seq<u16>),
    Real,
}

impl View for Depth {
    type V = DepthV;

    open spec fn view(&self) -> DepthV {
        match *self {
            Depth::Eight => DepthV::Eight,
            Depth::Sixteen(words) => DepthV::Sixteen(words@),
            Depth::Real => DepthV::Real,
        }
    }
}

impl DepthV {
    /// The depth of an image that has so many channels, and so many bytes for each pixel.
    pub open spec fn of(channels: u8, pixel_bytes: u8, words: Seq<u16>) -> DepthV {
        if pixel_bytes == 2 * channels {
            DepthV::Sixteen(words)
        } else if pixel_bytes == 4 * channels {
            DepthV::Real
        } else {
            DepthV::Eight
        }
    }
}

impl Depth {
    fn from_bytes(channels: u8, pixel_bytes: u8, words: Vec<u16>) -> (r: Depth)
        ensures
            r@ == DepthV::of(channels, pixel_bytes, words@),
    {
        if pixel_bytes as u16 == 2 * channels as u16 {
            Depth::Sixteen(words)
        } else if pixel_bytes as u16 == 4 * channels as u16 {
            Depth::Real
        } else {
            Depth::Eight
        }
    }

    fn copy(&self) -> (r: Depth)
        ensures
            r@ == self@,
    {
        match self {
            Depth::Eight => Depth::Eight,
            Depth::Sixteen(words) => {
                let again = words.clone();
                assert(again@ =~= words@);
                Depth::Sixteen(again)
            },
            Depth::Real => Depth::Real,
        }
    }
}

/// A picture: four bytes for each pixel, red, green, blue and alpha, row by row, and the
/// samples it came in where they are finer than that.
#[derive(Debug, PartialEq, Eq)]
pub struct Picture {
    pub width: u32,
    pub height: u32,
    pub pixels: Vec<u8>,
    pub channels: Channels,
    pub depth: Depth,
}

pub struct PictureV {
    pub width: u32,
    pub height: u32,
    pub pixels: Seq<u8>,
    pub channels: Channels,
    pub depth: DepthV,
}

impl View for Picture {
    type V = PictureV;

    open spec fn view(&self) -> PictureV {
        PictureV {
            width: self.width,
            height: self.height,
            pixels: self.pixels@,
            channels: self.channels,
            depth: self.depth@,
        }
    }
}

impl PictureV {
    /// A picture has all of its pixels, and few enough of them to work on in memory.
    pub open spec fn wf(self) -> bool {
        self.pixels.len() == self.width * self.height * 4 && self.pixels.len() <= usize::MAX / 8
            && self.pixels.len() <= MAX_PICTURE_BYTES && (self.depth matches DepthV::Sixteen(words)
            ==> words.len() == self.width * self.height * self.channels.count())
    }

    /// The number of pixels.
    pub open spec fn count(self) -> int {
        self.width * self.height
    }
}

impl Picture {
    pub open spec fn wf(&self) -> bool {
        self@.wf()
    }

    /// A picture from its bytes, if there are as many of them as its size asks for.
    pub fn from_rgba(width: u32, height: u32, pixels: Vec<u8>) -> (r: Option<Picture>)
        ensures
            ({
                let p = PictureV {
                    width,
                    height,
                    pixels: pixels@,
                    channels: Channels::Rgba,
                    depth: DepthV::Eight,
                };
                match r {
                    Some(made) => made.wf() && made@ == p,
                    None => !p.wf(),
                }
            }),
    {
        proof {
            lemma_mul_inequality(width as int, u32::MAX as int, height as int);
            lemma_mul_inequality(height as int, u32::MAX as int, u32::MAX as int);
            assert(u32::MAX as int * height as int == height as int * u32::MAX as int)
                by (nonlinear_arith);
        }
        if width as u128 * height as u128 * 4 == pixels.len() as u128 && pixels.len() <= usize::MAX
            / 8 && pixels.len() as u64 <= MAX_PICTURE_BYTES {
            Some(Picture { width, height, pixels, channels: Channels::Rgba, depth: Depth::Eight })
        } else {
            None
        }
    }

    /// True where there are as many samples as the picture asks for.
    fn has_samples(&self, channels: Channels, depth: &Depth) -> (r: bool)
        requires
            self.wf(),
        ensures
            r == (depth@ matches DepthV::Sixteen(words) ==> words.len() == self.width * self.height
                * channels.count()),
    {
        match depth {
            Depth::Sixteen(words) => {
                let count: usize = self.pixels.len() / 4;
                let n: usize = channels.number();
                assert(count == self@.count());
                assert(count * n <= count * 4) by (nonlinear_arith)
                    requires
                        0 <= count,
                        n <= 4,
                ;
                words.len() == count * n
            },
            _ => true,
        }
    }

    /// The same picture again.
    pub fn copy(&self) -> (r: Picture)
        ensures
            r@ == self@,
    {
        let r = Picture {
            width: self.width,
            height: self.height,
            pixels: self.pixels.clone(),
            channels: self.channels,
            depth: self.depth.copy(),
        };
        assert(r.pixels@ =~= self.pixels@);
        r
    }
}

// --- cutting ------------------------------------------------------------------------

/// A picture without its first `top` and its last `bottom` rows. A cut that would
/// leave nothing is treated as no cut.
pub open spec fn cropped(p: PictureV, top: int, bottom: int) -> PictureV {
    let left = p.height - top - bottom;
    if (top == 0 && bottom == 0) || left <= 0 {
        p
    } else {
        PictureV {
            width: p.width,
            height: left as u32,
            pixels: p.pixels.subrange(p.width * top * 4, p.width * (top + left) * 4),
            channels: p.channels,
            depth: match p.depth {
                DepthV::Sixteen(words) => DepthV::Sixteen(
                    words.subrange(
                        p.width * top * p.channels.count(),
                        p.width * (top + left) * p.channels.count(),
                    ),
                ),
                other => other,
            },
        }
    }
}

/// The rows of the samples that are left.
fn crop_depth(p: &Picture, top: u32, left: u32) -> (r: Depth)
    requires
        p.wf(),
        top + left <= p.height,
    ensures
        r@ == (match p@.depth {
            DepthV::Sixteen(words) => DepthV::Sixteen(
                words.subrange(
                    p.width * top * p.channels.count(),
                    p.width * (top + left) * p.channels.count(),
                ),
            ),
            other => other,
        }),
        r@ matches DepthV::Sixteen(words) ==> words.len() == p.width * left * p.channels.count(),
{
    match &p.depth {
        Depth::Eight => Depth::Eight,
        Depth::Real => Depth::Real,
        Depth::Sixteen(words) => {
            let n: usize = p.channels.number();
            let ghost w = p.width as int;
            let ghost h = p.height as int;
            proof {
                assert(p.channels.count() == n && 1 <= n <= 4);
                assert(0 <= w * top * n <= w * (top + left) * n <= w * h * n) by (nonlinear_arith)
                    requires
                        0 <= w,
                        0 <= top,
                        0 <= left,
                        1 <= n,
                        top + left <= h,
                ;
                assert(w * h * n <= w * h * 4) by (nonlinear_arith)
                    requires
                        0 <= w,
                        0 <= h,
                        n <= 4,
                ;
                assert(w * (top + left) * n - w * top * n == w * left * n) by (nonlinear_arith);
                assert(0 <= w * top <= w * top * n && 0 <= w * (top + left) <= w * (top + left) * n)
                    by (nonlinear_arith)
                    requires
                        0 <= w,
                        0 <= top,
                        0 <= left,
                        1 <= n,
                ;
            }
            let from: usize = p.width as usize * top as usize * n;
            let to: usize = p.width as usize * (top as usize + left as usize) * n;
            let mut out: Vec<u16> = Vec::new();
            assert(out@ =~= words@.subrange(from as int, from as int));
            for i in from..to
                invariant
                    from <= to <= words.len(),
                    out@ == words@.subrange(from as int, i as int),
            {
                out.push(words[i]);
                assert(out@ =~= words@.subrange(from as int, i + 1));
            }
            Depth::Sixteen(out)
        },
    }
}

/// Removes rows from the top and bottom of a picture.
pub fn crop(p: &Picture, top: u32, bottom: u32) -> (r: Picture)
    requires
        p.wf(),
    ensures
        r.wf(),
        r@ == cropped(p@, top as int, bottom as int),
{
    let left: u32 = p.height.saturating_sub(top).saturating_sub(bottom);
    if (top == 0 && bottom == 0) || left == 0 {
        return p.copy();
    }
    let ghost w = p.width as int;
    let ghost h = p.height as int;
    proof {
        assert(w * top * 4 <= w * (top + left) * 4 <= w * h * 4) by (nonlinear_arith)
            requires
                0 <= w,
                0 <= top,
                0 <= left,
                top + left <= h,
        ;
        assert(w * (top + left) * 4 - w * top * 4 == w * left * 4) by (nonlinear_arith);
        assert(w * top <= w * top * 4 && w * (top + left) <= w * (top + left) * 4)
            by (nonlinear_arith)
            requires
                0 <= w,
                0 <= top,
                0 <= left,
        ;
        assert(0 <= w * top && 0 <= w * (top + left)) by (nonlinear_arith)
            requires
                0 <= w,
                0 <= top,
                0 <= left,
        ;
    }
    let from: usize = p.width as usize * top as usize * 4;
    let to: usize = p.width as usize * (top as usize + left as usize) * 4;
    let mut pixels: Vec<u8> = Vec::new();
    assert(pixels@ =~= p.pixels@.subrange(from as int, from as int));
    for i in from..to
        invariant
            from <= to <= p.pixels.len(),
            pixels@ == p.pixels@.subrange(from as int, i as int),
    {
        pixels.push(p.pixels[i]);
        assert(pixels@ =~= p.pixels@.subrange(from as int, i + 1));
    }
    let depth = crop_depth(p, top, left);
    Picture { width: p.width, height: left, pixels, channels: p.channels, depth }
}

// --- scaling ------------------------------------------------------------------------

/// What the image crate makes of a picture that is scaled down into a box.
pub uninterp spec fn shrunk(
    pixels: Seq<u8>,
    width: u32,
    height: u32,
    box_width: u32,
    box_height: u32,
) -> (u32, u32, Seq<u8>);

/// What the image crate makes of a picture in sixteen bits that is scaled down into a
/// box: its size, its samples, and its pixels in bytes.
pub uninterp spec fn shrunk_words(
    words: Seq<u16>,
    channels: u8,
    width: u32,
    height: u32,
    box_width: u32,
    box_height: u32,
) -> (u32, u32, Seq<u16>, Seq<u8>);

/// An image, as the image crate holds it.
#[verifier::external_type_specification]
#[verifier::external_body]
pub struct ExDynamicImage(image::DynamicImage);

/// The samples of an image in sixteen bits, and none of any other.
#[verifier::external_body]
fn words_of(image: &DynamicImage) -> Vec<u16> {
    match image {
        DynamicImage::ImageLuma16(b) => b.as_raw().clone(),
        DynamicImage::ImageLumaA16(b) => b.as_raw().clone(),
        DynamicImage::ImageRgb16(b) => b.as_raw().clone(),
        DynamicImage::ImageRgba16(b) => b.as_raw().clone(),
        _ => Vec::new(),
    }
}

/// An image in sixteen bits, by `ImageBuffer::from_raw`, which wants all of its samples.
#[verifier::external_body]
fn image_of(words: Vec<u16>, channels: Channels, w: u32, h: u32) -> DynamicImage
    requires
        words@.len() == w * h * channels.count(),
{
    match channels {
        Channels::Grey => ImageBuffer::from_raw(w, h, words).map(DynamicImage::ImageLuma16),
        Channels::GreyAlpha => ImageBuffer::from_raw(w, h, words).map(DynamicImage::ImageLumaA16),
        Channels::Rgb => ImageBuffer::from_raw(w, h, words).map(DynamicImage::ImageRgb16),
        Channels::Rgba => ImageBuffer::from_raw(w, h, words).map(DynamicImage::ImageRgba16),
    }.unwrap_or_default()
}

/// `DynamicImage::resize` with the Catmull-Rom filter, as in `resize`, on an image in
/// sixteen bits, which it stays; `DynamicImage::to_rgba8` then gives its pixels.
#[verifier::external_body]
fn resize_words(p: &Picture, words: &Vec<u16>, box_width: u32, box_height: u32) -> (r: Picture)
    requires
        p.wf(),
        words@.len() == p.width * p.height * p.channels.count(),
        0 < p.width,
        0 < p.height,
        0 < box_width,
        0 < box_height,
        box_width < p.width || box_height < p.height,
    ensures
        r.depth matches Depth::Sixteen(after) && (r.width, r.height, after@, r.pixels@)
            == shrunk_words(
            words@,
            p.channels.count(),
            p.width,
            p.height,
            box_width,
            box_height,
        ),
        r.wf(),
        r.channels == p.channels,
        1 <= r.width <= box_width,
        1 <= r.height <= box_height,
{
    let image = image_of(words.clone(), p.channels, p.width, p.height);
    let out = image.resize(box_width, box_height, FilterType::CatmullRom);
    Picture {
        width: out.width(),
        height: out.height(),
        pixels: out.to_rgba8().into_raw(),
        channels: p.channels,
        depth: Depth::Sixteen(words_of(&out)),
    }
}

/// `DynamicImage::resize` with the Catmull-Rom filter, which keeps photographs sharp
/// without the cost of Lanczos on big inputs. The result keeps the picture's shape and
/// fits in the box, and is never empty. What its pixels are is left to the name.
#[verifier::external_body]
fn resize(p: &Picture, box_width: u32, box_height: u32) -> (r: Picture)
    requires
        p.wf(),
        0 < p.width,
        0 < p.height,
        0 < box_width,
        0 < box_height,
        box_width < p.width || box_height < p.height,
    ensures
        (r.width, r.height, r.pixels@) == shrunk(
            p.pixels@,
            p.width,
            p.height,
            box_width,
            box_height,
        ),
        r.wf(),
        r.channels == p.channels,
        r.depth is Eight,
        1 <= r.width <= box_width,
        1 <= r.height <= box_height,
{
    let buffer = RgbaImage::from_raw(p.width, p.height, p.pixels.clone()).unwrap_or_default();
    let out = DynamicImage::ImageRgba8(buffer)
        .resize(box_width, box_height, FilterType::CatmullRom)
        .into_rgba8();
    let (width, height) = out.dimensions();
    let pixels = out.into_raw();
    Picture { width, height, pixels, channels: p.channels, depth: Depth::Eight }
}

/// A number that is at least 1.
pub open spec fn at_least_one(n: u32) -> u32 {
    if n == 0 {
        1
    } else {
        n
    }
}

/// A picture scaled to fit inside a box: one that fits already stays as it is.
pub open spec fn fitted(p: PictureV, width: u32, height: u32) -> PictureV {
    if at_least_one(p.width) <= width && at_least_one(p.height) <= height || p.width == 0
        || p.height == 0 {
        p
    } else if p.width <= at_least_one(width) && p.height <= at_least_one(height) {
        p
    } else {
        let (w, h) = (at_least_one(width), at_least_one(height));
        match p.depth {
            DepthV::Sixteen(words) => {
                let r = shrunk_words(words, p.channels.count(), p.width, p.height, w, h);
                PictureV {
                    width: r.0,
                    height: r.1,
                    pixels: r.3,
                    channels: p.channels,
                    depth: DepthV::Sixteen(r.2),
                }
            },
            other => {
                let r = shrunk(p.pixels, p.width, p.height, w, h);
                PictureV {
                    width: r.0,
                    height: r.1,
                    pixels: r.2,
                    channels: p.channels,
                    depth: other,
                }
            },
        }
    }
}

/// Scales a picture to fit inside a box without distorting it. A picture that fits
/// already is not scaled up. One in sixteen bits is scaled in them, one in floating point
/// by its pixels.
pub fn fit(p: &Picture, width: u32, height: u32) -> (r: Picture)
    requires
        p.wf(),
    ensures
        r.wf(),
        r@ == fitted(p@, width, height),
        p.width > 0 && p.height > 0 ==> 0 < r.width <= at_least_one(width) && 0 < r.height
            <= at_least_one(height),
{
    let w: u32 = if width == 0 {
        1
    } else {
        width
    };
    let h: u32 = if height == 0 {
        1
    } else {
        height
    };
    if p.width == 0 || p.height == 0 || (p.width <= w && p.height <= h) {
        return p.copy();
    }
    match &p.depth {
        Depth::Sixteen(words) => resize_words(p, words, w, h),
        Depth::Eight => resize(p, w, h),
        Depth::Real => {
            let out = resize(p, w, h);
            Picture { depth: Depth::Real, ..out }
        },
    }
}

// --- files --------------------------------------------------------------------------

// The image crate lets a process register decoders and format detectors of its own. This
// program registers none, so what is named here depends on the bytes alone.

/// The name of the format that some bytes seem to be in, if they seem to be in one. No
/// hook of the image crate has a part in it: none is registered.
pub uninterp spec fn format_name(bytes: Seq<u8>) -> Option<Seq<char>>;

/// The size of the image in some bytes, if it can be read, by the image crate's own
/// decoders: no hook is registered.
pub uninterp spec fn image_size(bytes: Seq<u8>) -> Option<(u32, u32)>;

/// The image in some bytes, if it can be read: its size, its pixels, how many channels
/// it has, how many bytes those take for each pixel, and its samples where they are in
/// sixteen bits. It is read by the image crate's own decoders: no hook is registered.
pub uninterp spec fn image_pixels(bytes: Seq<u8>) -> Option<
    (u32, u32, Seq<u8>, u8, u8, Seq<u16>),
>;

/// The bytes of a PNG file with the given samples, so many for each pixel, if it can be
/// written.
pub uninterp spec fn png_bytes(samples: Seq<u8>, channels: u8, width: u32, height: u32) -> Option<
    Seq<u8>,
>;

/// `ImageReader::format` after `with_guessed_format`: the format that the first bytes
/// announce, by the name that its `Debug` form gives.
#[verifier::external_body]
fn guess_format(bytes: &Vec<u8>) -> (r: Option<String>)
    ensures
        opt_text(r) == format_name(bytes@),
{
    let reader = ImageReader::new(Cursor::new(bytes)).with_guessed_format().ok()?;
    reader.format().map(|f| format!("{f:?}"))
}

/// `ImageReader::into_dimensions`: the width and height in the image's own header.
#[verifier::external_body]
fn read_size(bytes: &Vec<u8>) -> (r: Option<(u32, u32)>)
    ensures
        r == image_size(bytes@),
{
    ImageReader::new(Cursor::new(bytes)).with_guessed_format().ok()?.into_dimensions().ok()
}

/// What is read of an image: a width, a height, pixels, the number of channels they came
/// in, the bytes of one pixel in them, and the samples of an image in sixteen bits.
pub type ImageData = (u32, u32, Vec<u8>, u8, u8, Vec<u16>);

pub open spec fn opt_read(o: Option<ImageData>) -> Option<
    (u32, u32, Seq<u8>, u8, u8, Seq<u16>),
> {
    match o {
        Some(p) => Some((p.0, p.1, p.2@, p.3, p.4, p.5@)),
        None => None,
    }
}

/// `ImageReader::decode`, converted to eight bits of red, green, blue and alpha, with
/// the number of channels and the bytes of a pixel that `DynamicImage::color` counted
/// before that, and the samples of an image in sixteen bits. What comes out has all of
/// its pixels, and all of those samples.
#[verifier::external_body]
fn read_pixels(bytes: &Vec<u8>) -> (r: Option<ImageData>)
    ensures
        opt_read(r) == image_pixels(bytes@),
        r matches Some(p) ==> p.2@.len() == p.0 * p.1 * 4,
        r matches Some(p) ==> (p.4 == 2 * p.3 ==> p.5@.len() == p.0 * p.1 * p.3),
{
    let reader = ImageReader::new(Cursor::new(bytes)).with_guessed_format().ok()?;
    let image = reader.decode().ok()?;
    let color = image.color();
    let words = words_of(&image);
    let out = image.into_rgba8();
    let (width, height) = out.dimensions();
    let pixels = out.into_raw();
    Some((width, height, pixels, color.channel_count(), color.bytes_per_pixel(), words))
}

/// The bytes of a PNG file with the given samples in sixteen bits, if it can be written.
pub uninterp spec fn deep_png_bytes(
    words: Seq<u16>,
    channels: u8,
    width: u32,
    height: u32,
) -> Option<Seq<u8>>;

/// `DynamicImage::write_to` as a PNG file, on an image in sixteen bits.
#[verifier::external_body]
fn encode_words(words: &Vec<u16>, channels: Channels, width: u32, height: u32) -> (r: Option<
    Vec<u8>,
>)
    requires
        words@.len() == width * height * channels.count(),
    ensures
        opt_bytes(r) == deep_png_bytes(words@, channels.count(), width, height),
{
    let mut png: Vec<u8> = Vec::new();
    let image = image_of(words.clone(), channels, width, height);
    image.write_to(&mut Cursor::new(&mut png), ImageFormat::Png).ok()?;
    Some(png)
}

/// `PngEncoder::write_image`: the bytes of a file, or nothing where the encoder refuses
/// the picture. It wants as many samples as the size and the channels ask for.
#[verifier::external_body]
fn encode_samples(samples: &Vec<u8>, channels: Channels, width: u32, height: u32) -> (r: Option<
    Vec<u8>,
>)
    requires
        samples@.len() == width * height * channels.count(),
    ensures
        opt_bytes(r) == png_bytes(samples@, channels.count(), width, height),
{
    let color = match channels {
        Channels::Grey => ExtendedColorType::L8,
        Channels::GreyAlpha => ExtendedColorType::La8,
        Channels::Rgb => ExtendedColorType::Rgb8,
        Channels::Rgba => ExtendedColorType::Rgba8,
    };
    let mut png: Vec<u8> = Vec::new();
    PngEncoder::new(&mut png).write_image(samples, width, height, color).ok()?;
    Some(png)
}

/// What is written of one pixel: its channels. The channels of a grey are all alike.
pub open spec fn pixel_samples(p: PictureV, i: int) -> Seq<u8> {
    match p.channels {
        Channels::Grey => seq![p.pixels[4 * i]],
        Channels::GreyAlpha => seq![p.pixels[4 * i], p.pixels[4 * i + 3]],
        Channels::Rgb => seq![p.pixels[4 * i], p.pixels[4 * i + 1], p.pixels[4 * i + 2]],
        Channels::Rgba => seq![
            p.pixels[4 * i],
            p.pixels[4 * i + 1],
            p.pixels[4 * i + 2],
            p.pixels[4 * i + 3],
        ],
    }
}

/// What is written of the first `k` pixels.
pub open spec fn samples(p: PictureV, k: int) -> Seq<u8>
    decreases k,
{
    if k <= 0 {
        Seq::empty()
    } else {
        samples(p, k - 1) + pixel_samples(p, k - 1)
    }
}

/// A picture as a PNG file, in the channels and the depth it came with. There is none of
/// one in floating point.
pub open spec fn png_of(p: PictureV) -> Option<Seq<u8>> {
    match p.depth {
        DepthV::Eight => png_bytes(samples(p, p.count()), p.channels.count(), p.width, p.height),
        DepthV::Sixteen(words) => deep_png_bytes(words, p.channels.count(), p.width, p.height),
        DepthV::Real => None,
    }
}

fn push_samples(out: &mut Vec<u8>, p: &Picture, i: usize)
    requires
        4 * i + 3 < p.pixels@.len() <= usize::MAX / 8,
    ensures
        final(out)@ == old(out)@ + pixel_samples(p@, i as int),
{
    let ghost before = out@;
    let at: usize = 4 * i;
    out.push(p.pixels[at]);
    match p.channels {
        Channels::Grey => {},
        Channels::GreyAlpha => {
            out.push(p.pixels[at + 3]);
        },
        Channels::Rgb => {
            out.push(p.pixels[at + 1]);
            out.push(p.pixels[at + 2]);
        },
        Channels::Rgba => {
            out.push(p.pixels[at + 1]);
            out.push(p.pixels[at + 2]);
            out.push(p.pixels[at + 3]);
        },
    }
    assert(out@ =~= before + pixel_samples(p@, i as int));
}

/// Writes a picture as a PNG file.
pub(crate) fn write_png(p: &Picture) -> (r: Option<Vec<u8>>)
    requires
        p.wf(),
    ensures
        opt_bytes(r) == png_of(p@),
{
    match &p.depth {
        Depth::Eight => {},
        Depth::Sixteen(words) => {
            return encode_words(words, p.channels, p.width, p.height);
        },
        Depth::Real => {
            return None;
        },
    }
    let n: usize = p.pixels.len() / 4;
    assert(n == p@.count());
    let mut out: Vec<u8> = Vec::new();
    assert(samples(p@, 0) =~= out@);
    for i in 0..n
        invariant
            n == p.pixels@.len() / 4,
            p.pixels@.len() <= usize::MAX / 8,
            out@ == samples(p@, i as int),
            out@.len() == i * p.channels.count(),
    {
        push_samples(&mut out, p, i);
        assert(i * p.channels.count() + p.channels.count() == (i + 1) * p.channels.count())
            by (nonlinear_arith);
    }
    encode_samples(&out, p.channels, p.width, p.height)
}

/// Ceiling on decoded image size, to keep a careless file from exhausting memory. 64
/// megapixels is far more than any terminal can show.
pub const MAX_PIXELS: u64 = 67108864;

/// What came of decoding.
#[derive(Debug)]
pub enum Decoded {
    Picture(Picture),
    /// In a format that cannot be read; the text says which.
    Unsupported(String),
    TooLarge,
}

pub enum DecodedV {
    Picture(PictureV),
    Unsupported(Seq<char>),
    TooLarge,
}

impl View for Decoded {
    type V = DecodedV;

    open spec fn view(&self) -> DecodedV {
        match *self {
            Decoded::Picture(p) => DecodedV::Picture(p@),
            Decoded::Unsupported(s) => DecodedV::Unsupported(s@),
            Decoded::TooLarge => DecodedV::TooLarge,
        }
    }
}

/// What the format is called in a message.
pub open spec fn described(format: Option<Seq<char>>) -> Seq<char> {
    match format {
        Some(name) => name + " image"@,
        None => "this image format"@,
    }
}

/// What comes of decoding, given the format, the size in the header and the pixels.
pub open spec fn decoding(
    format: Option<Seq<char>>,
    size: Option<(u32, u32)>,
    pixels: Option<(u32, u32, Seq<u8>, u8, u8, Seq<u16>)>,
) -> DecodedV {
    match size {
        None => DecodedV::Unsupported(described(format)),
        Some((w, h)) => if w * h > MAX_PIXELS {
            DecodedV::TooLarge
        } else {
            match pixels {
                None => DecodedV::Unsupported(described(format)),
                Some((pw, ph, data, n, b, words)) => {
                    let p = PictureV {
                        width: pw,
                        height: ph,
                        pixels: data,
                        channels: Channels::of(n),
                        depth: DepthV::of(n, b, words),
                    };
                    if p.wf() {
                        DecodedV::Picture(p)
                    } else {
                        DecodedV::TooLarge
                    }
                },
            }
        },
    }
}

fn describe(format: Option<String>) -> (r: String)
    ensures
        r@ == described(opt_text(format)),
{
    match format {
        Some(name) => {
            let mut s = name;
            s.push_str(" image");
            s
        },
        None => crate::text::owned("this image format"),
    }
}

/// True where the header's size is one that will be decoded.
pub fn small_enough(size: (u32, u32)) -> (r: bool)
    ensures
        r == (size.0 * size.1 <= MAX_PIXELS),
{
    proof {
        lemma_mul_inequality(size.0 as int, u32::MAX as int, size.1 as int);
        assert(u32::MAX as int * size.1 as int == size.1 as int * u32::MAX as int)
            by (nonlinear_arith);
        lemma_mul_inequality(size.1 as int, u32::MAX as int, u32::MAX as int);
    }
    size.0 as u64 * size.1 as u64 <= MAX_PIXELS
}

/// What comes of decoding, given the format, the size in the header and the pixels.
pub fn decode_outcome(
    format: Option<String>,
    size: Option<(u32, u32)>,
    pixels: Option<ImageData>,
) -> (r: Decoded)
    ensures
        r@ == decoding(opt_text(format), size, opt_read(pixels)),
        r matches Decoded::Picture(p) ==> p.wf(),
{
    match size {
        None => Decoded::Unsupported(describe(format)),
        Some(s) => if !small_enough(s) {
            Decoded::TooLarge
        } else {
            match pixels {
                None => Decoded::Unsupported(describe(format)),
                Some((width, height, data, n, b, words)) => {
                    let channels = Channels::from_count(n);
                    let depth = Depth::from_bytes(n, b, words);
                    match Picture::from_rgba(width, height, data) {
                        Some(p) => if p.has_samples(channels, &depth) {
                            Decoded::Picture(Picture { channels, depth, ..p })
                        } else {
                            Decoded::TooLarge
                        },
                        None => Decoded::TooLarge,
                    }
                },
            }
        },
    }
}

/// Decodes image bytes with a guard on the decoded size: nothing is decoded whose
/// header announces too many pixels. Naming the format makes "cannot read Avif image"
/// possible, which tells the reader something they can act on.
pub fn decode(bytes: &Vec<u8>) -> (r: Decoded)
    ensures
        r@ == decoding(format_name(bytes@), image_size(bytes@), image_pixels(bytes@)),
        r matches Decoded::Picture(p) ==> p.wf(),
{
    let format = guess_format(bytes);
    let size = read_size(bytes);
    let pixels = match size {
        Some(s) => if small_enough(s) {
            read_pixels(bytes)
        } else {
            return Decoded::TooLarge;
        },
        None => {
            return Decoded::Unsupported(describe(format));
        },
    };
    decode_outcome(format, size, pixels)
}

// --- laws ---------------------------------------------------------------------------------

/// A cut picture shows the rows that are left, from the top, each as it was: the byte of
/// a pixel is that of the pixel as many rows further down as were cut off above it.
pub proof fn rows_stay_as_they_were(p: PictureV, top: int, bottom: int, x: int, y: int, c: int)
    requires
        p.wf(),
        0 <= top,
        0 <= bottom,
        top + bottom < p.height,
        0 <= x < p.width,
        0 <= y < p.height - top - bottom,
        0 <= c < 4,
    ensures
        cropped(p, top, bottom).width == p.width,
        cropped(p, top, bottom).height == p.height - top - bottom,
        cropped(p, top, bottom).pixels[4 * (y * p.width + x) + c] == p.pixels[4 * ((y + top)
            * p.width + x) + c],
{
    let w = p.width as int;
    let left = p.height - top - bottom;
    assert(w * top * 4 + (4 * (y * w + x) + c) == 4 * ((y + top) * w + x) + c) by (nonlinear_arith);
    assert(0 <= 4 * (y * w + x) + c < w * left * 4) by (nonlinear_arith)
        requires
            0 <= x < w,
            0 <= y < left,
            0 <= c < 4,
    ;
    assert(w * (top + left) * 4 - w * top * 4 == w * left * 4) by (nonlinear_arith);
    assert(0 <= w * top * 4) by (nonlinear_arith)
        requires
            0 <= w,
            0 <= top,
    ;
    assert(w * (top + left) * 4 <= w * p.height * 4) by (nonlinear_arith)
        requires
            top + left <= p.height,
            0 <= w,
    ;
    if top == 0 && bottom == 0 {
        assert(y + top == y);
    }
}

/// A PNG file gets the pixels of a picture in their order, and of each pixel the channels
/// the picture came with: red, green and blue, or one of them where it is grey, and then
/// the alpha.
pub proof fn samples_follow_the_pixels(p: PictureV, k: int, i: int)
    requires
        p.wf(),
        0 <= i < k <= p.count(),
    ensures
        ({
            let n = p.channels.count() as int;
            let s = samples(p, k);
            &&& s.len() == k * n
            &&& s[i * n] == p.pixels[4 * i]
            &&& n == 2 ==> s[i * n + 1] == p.pixels[4 * i + 3]
            &&& n >= 3 ==> s[i * n + 1] == p.pixels[4 * i + 1] && s[i * n + 2] == p.pixels[4 * i
                + 2]
            &&& n == 4 ==> s[i * n + 3] == p.pixels[4 * i + 3]
        }),
    decreases k,
{
    let n = p.channels.count() as int;
    let before = samples(p, k - 1);
    let own = pixel_samples(p, k - 1);
    assert(own.len() == n);
    if k - 1 > 0 {
        samples_follow_the_pixels(
            p,
            k - 1,
            if i < k - 1 {
                i
            } else {
                0
            },
        );
    } else {
        assert(before.len() == 0);
        assert((k - 1) * n == 0) by (nonlinear_arith)
            requires
                k == 1,
        ;
    }
    assert((k - 1) * n + n == k * n) by (nonlinear_arith);
    if i < k - 1 {
        assert(0 <= i * n && i * n + n <= (k - 1) * n) by (nonlinear_arith)
            requires
                0 <= i,
                i + 1 <= k - 1,
                0 <= n,
        ;
    } else {
        assert(i * n == before.len());
    }
}

} // verus!

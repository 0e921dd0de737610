//! In-memory raster images and the conversions between pixel formats.

use vstd::prelude::*;
use crate::color::Rgb;

verus! {

/// One 8-bit RGBA pixel.
#[derive(Clone, Copy, PartialEq, Eq, Structural, Debug)]
pub struct Rgba {
    pub r: u8,
    pub g: u8,
    pub b: u8,
    pub a: u8,
}

/// An immutable row-major pixel grid in one of three 8-bit formats.
///
/// Transforms never mutate their input; thresholding returns the
/// single-channel variant, every other transform keeps its input's
/// format, so callers must not assume the format is preserved.
pub enum Image {
    Rgb8 { width: usize, height: usize, pixels: Vec<Rgb> },
    Luma8 { width: usize, height: usize, pixels: Vec<u8> },
    Rgba8 { width: usize, height: usize, pixels: Vec<Rgba> },
}

/// The grayscale intensity of an RGB pixel: integer BT.709 luma,
/// rounded toward zero; always within `[0, 255]`.
pub open spec fn luma_val(p: Rgb) -> int {
    (2126 * p.r + 7152 * p.g + 722 * p.b) / 10000
}

/// The same intensity as an 8-bit value.
pub open spec fn luma8(p: Rgb) -> u8 {
    luma_val(p) as u8
}

/// The luma of any 8-bit RGB pixel lies in `[0, 255]`, so its 8-bit
/// form is exact.
pub proof fn lemma_luma_bound(p: Rgb)
    ensures
        0 <= luma_val(p) <= 255,
        luma8(p) as int == luma_val(p),
{
    let n = 2126 * p.r + 7152 * p.g + 722 * p.b;
    vstd::arithmetic::div_mod::lemma_div_is_ordered(n, 2550000, 10000);
    vstd::arithmetic::div_mod::lemma_div_multiples_vanish(255, 10000);
    vstd::arithmetic::div_mod::lemma_div_pos_is_pos(n, 10000);
}

impl Image {
    /// The width in pixels.
    pub open spec fn spec_width(self) -> int {
        match self {
            Image::Rgb8 { width, .. } => width as int,
            Image::Luma8 { width, .. } => width as int,
            Image::Rgba8 { width, .. } => width as int,
        }
    }

    /// The height in pixels.
    pub open spec fn spec_height(self) -> int {
        match self {
            Image::Rgb8 { height, .. } => height as int,
            Image::Luma8 { height, .. } => height as int,
            Image::Rgba8 { height, .. } => height as int,
        }
    }

    /// How many pixels the image stores.
    pub open spec fn pixel_count(self) -> int {
        match self {
            Image::Rgb8 { pixels, .. } => pixels@.len() as int,
            Image::Luma8 { pixels, .. } => pixels@.len() as int,
            Image::Rgba8 { pixels, .. } => pixels@.len() as int,
        }
    }

    /// The representation invariant: the pixel store covers the grid.
    pub open spec fn wf(self) -> bool {
        self.spec_width() * self.spec_height() == self.pixel_count()
    }

    /// The pixels as RGB values whatever the storage format: gray
    /// replicates the intensity, RGBA drops alpha.
    pub open spec fn rgb_seq(self) -> Seq<Rgb> {
        match self {
            Image::Rgb8 { pixels, .. } => pixels@,
            Image::Luma8 { pixels, .. } => pixels@.map_values(
                |v: u8| Rgb { r: v, g: v, b: v },
            ),
            Image::Rgba8 { pixels, .. } => pixels@.map_values(
                |p: Rgba| Rgb { r: p.r, g: p.g, b: p.b },
            ),
        }
    }

    /// The pixels as grayscale intensities whatever the storage format.
    pub open spec fn luma_seq(self) -> Seq<u8> {
        self.rgb_seq().map_values(|p: Rgb| luma8(p))
    }

    /// The width in pixels.
    pub fn width(&self) -> (out: usize)
        ensures
            out as int == self.spec_width(),
    {
        match self {
            Image::Rgb8 { width, .. } => *width,
            Image::Luma8 { width, .. } => *width,
            Image::Rgba8 { width, .. } => *width,
        }
    }

    /// The height in pixels.
    pub fn height(&self) -> (out: usize)
        ensures
            out as int == self.spec_height(),
    {
        match self {
            Image::Rgb8 { height, .. } => *height,
            Image::Luma8 { height, .. } => *height,
            Image::Rgba8 { height, .. } => *height,
        }
    }

    /// Builds an RGB image, checking that the pixel store covers the
    /// requested grid; returns the well-formed image exactly when it
    /// does.
    pub fn new_rgb8(width: usize, height: usize, pixels: Vec<Rgb>) -> (out: Option<Image>)
        ensures
            (width * height == pixels@.len()) <==> out is Some,
            out matches Some(img) ==> img == (Image::Rgb8 { width, height, pixels })
                && img.wf(),
    {
        let len = pixels.len();
        match width.checked_mul(height) {
            Some(n) if n == len => Some(Image::Rgb8 { width, height, pixels }),
            _ => None,
        }
    }

    /// Builds a grayscale image, as `new_rgb8` does for RGB.
    pub fn new_luma8(width: usize, height: usize, pixels: Vec<u8>) -> (out: Option<Image>)
        ensures
            (width * height == pixels@.len()) <==> out is Some,
            out matches Some(img) ==> img == (Image::Luma8 { width, height, pixels })
                && img.wf(),
    {
        let len = pixels.len();
        match width.checked_mul(height) {
            Some(n) if n == len => Some(Image::Luma8 { width, height, pixels }),
            _ => None,
        }
    }

    /// Builds an RGBA image, as `new_rgb8` does for RGB.
    pub fn new_rgba8(width: usize, height: usize, pixels: Vec<Rgba>) -> (out: Option<Image>)
        ensures
            (width * height == pixels@.len()) <==> out is Some,
            out matches Some(img) ==> img == (Image::Rgba8 { width, height, pixels })
                && img.wf(),
    {
        let len = pixels.len();
        match width.checked_mul(height) {
            Some(n) if n == len => Some(Image::Rgba8 { width, height, pixels }),
            _ => None,
        }
    }
}

/// Whether two images are the same: same format, same dimensions and
/// the same pixel data.
pub open spec fn image_eq(a: Image, b: Image) -> bool {
    &&& a.spec_width() == b.spec_width()
    &&& a.spec_height() == b.spec_height()
    &&& match (a, b) {
        (Image::Rgb8 { pixels: p1, .. }, Image::Rgb8 { pixels: p2, .. }) => p1@ == p2@,
        (Image::Luma8 { pixels: p1, .. }, Image::Luma8 { pixels: p2, .. }) => p1@ == p2@,
        (Image::Rgba8 { pixels: p1, .. }, Image::Rgba8 { pixels: p2, .. }) => p1@ == p2@,
        _ => false,
    }
}

/// The grayscale intensity of one RGB pixel.
pub fn luma_of(p: Rgb) -> (out: u8)
    ensures
        out as int == luma_val(p),
        out == luma8(p),
{
    proof {
        lemma_luma_bound(p);
    }
    let n: u32 = 2126 * (p.r as u32) + 7152 * (p.g as u32) + 722 * (p.b as u32);
    proof {
        vstd::arithmetic::div_mod::lemma_div_is_ordered(n as int, 2550000, 10000);
        vstd::arithmetic::div_mod::lemma_div_multiples_vanish(255, 10000);
        vstd::arithmetic::div_mod::lemma_div_pos_is_pos(n as int, 10000);
    }
    (n / 10000) as u8
}

/// The image's pixels as RGB values, in one freshly built vector.
pub fn rgb_pixels(image: &Image) -> (out: Vec<Rgb>)
    ensures
        out@ == image.rgb_seq(),
{
    match image {
        Image::Rgb8 { pixels, .. } => {
            let mut out: Vec<Rgb> = Vec::new();
            let mut i: usize = 0;
            while i < pixels.len()
                invariant
                    i <= pixels.len(),
                    out@ == pixels@.subrange(0, i as int),
                decreases pixels.len() - i,
            {
                out.push(pixels[i]);
                i = i + 1;
                proof {
                    assert(out@ =~= pixels@.subrange(0, i as int));
                }
            }
            proof {
                assert(out@ =~= pixels@);
            }
            out
        },
        Image::Luma8 { pixels, .. } => {
            let mut out: Vec<Rgb> = Vec::new();
            let mut i: usize = 0;
            while i < pixels.len()
                invariant
                    i <= pixels.len(),
                    out@ == pixels@.subrange(0, i as int).map_values(
                        |v: u8| Rgb { r: v, g: v, b: v },
                    ),
                decreases pixels.len() - i,
            {
                let v = pixels[i];
                out.push(Rgb { r: v, g: v, b: v });
                i = i + 1;
                proof {
                    assert(out@ =~= pixels@.subrange(0, i as int).map_values(
                        |v: u8| Rgb { r: v, g: v, b: v },
                    ));
                }
            }
            proof {
                assert(pixels@.subrange(0, pixels@.len() as int) =~= pixels@);
            }
            out
        },
        Image::Rgba8 { pixels, .. } => {
            let mut out: Vec<Rgb> = Vec::new();
            let mut i: usize = 0;
            while i < pixels.len()
                invariant
                    i <= pixels.len(),
                    out@ == pixels@.subrange(0, i as int).map_values(
                        |p: Rgba| Rgb { r: p.r, g: p.g, b: p.b },
                    ),
                decreases pixels.len() - i,
            {
                let p = pixels[i];
                out.push(Rgb { r: p.r, g: p.g, b: p.b });
                i = i + 1;
                proof {
                    assert(out@ =~= pixels@.subrange(0, i as int).map_values(
                        |p: Rgba| Rgb { r: p.r, g: p.g, b: p.b },
                    ));
                }
            }
            proof {
                assert(pixels@.subrange(0, pixels@.len() as int) =~= pixels@);
            }
            out
        },
    }
}

/// The image's pixels as grayscale intensities, in one freshly built
/// vector.
pub fn luma_pixels(image: &Image) -> (out: Vec<u8>)
    ensures
        out@ == image.luma_seq(),
{
    let rgb = rgb_pixels(image);
    let mut out: Vec<u8> = Vec::new();
    let mut i: usize = 0;
    while i < rgb.len()
        invariant
            i <= rgb.len(),
            rgb@ == image.rgb_seq(),
            out@.len() == i,
            forall|j: int| 0 <= j < i ==> out@[j] == image.luma_seq()[j],
        decreases rgb.len() - i,
    {
        out.push(luma_of(rgb[i]));
        i = i + 1;
    }
    proof {
        assert(out@ =~= image.luma_seq());
    }
    out
}

/// A fresh copy of an image: same format, dimensions and pixels.
pub fn clone_image(image: &Image) -> (out: Image)
    ensures
        image_eq(*image, out),
        image.wf() ==> out.wf(),
{
    match image {
        Image::Rgb8 { width, height, pixels } => {
            let mut out: Vec<Rgb> = Vec::new();
            let mut i: usize = 0;
            while i < pixels.len()
                invariant
                    i <= pixels.len(),
                    out@ == pixels@.subrange(0, i as int),
                decreases pixels.len() - i,
            {
                out.push(pixels[i]);
                i = i + 1;
                proof {
                    assert(out@ =~= pixels@.subrange(0, i as int));
                }
            }
            proof {
                assert(out@ =~= pixels@);
            }
            Image::Rgb8 { width: *width, height: *height, pixels: out }
        },
        Image::Luma8 { width, height, pixels } => {
            let mut out: Vec<u8> = Vec::new();
            let mut i: usize = 0;
            while i < pixels.len()
                invariant
                    i <= pixels.len(),
                    out@ == pixels@.subrange(0, i as int),
                decreases pixels.len() - i,
            {
                out.push(pixels[i]);
                i = i + 1;
                proof {
                    assert(out@ =~= pixels@.subrange(0, i as int));
                }
            }
            proof {
                assert(out@ =~= pixels@);
            }
            Image::Luma8 { width: *width, height: *height, pixels: out }
        },
        Image::Rgba8 { width, height, pixels } => {
            let mut out: Vec<Rgba> = Vec::new();
            let mut i: usize = 0;
            while i < pixels.len()
                invariant
                    i <= pixels.len(),
                    out@ == pixels@.subrange(0, i as int),
                decreases pixels.len() - i,
            {
                out.push(pixels[i]);
                i = i + 1;
                proof {
                    assert(out@ =~= pixels@.subrange(0, i as int));
                }
            }
            proof {
                assert(out@ =~= pixels@);
            }
            Image::Rgba8 { width: *width, height: *height, pixels: out }
        },
    }
}

} // verus!

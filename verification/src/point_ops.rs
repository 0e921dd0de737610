//! Point transforms: inversion, brightness shift, manual threshold.
//!
//! Each maps every pixel independently; the input image is never
//! mutated. Inversion and brightness keep the pixel format (an alpha
//! channel passes through untouched); thresholding returns a
//! single-channel binary image.

use vstd::prelude::*;
use crate::color::Rgb;
use crate::raster::{Image, Rgba, image_eq, luma_pixels};

verus! {

/// One inverted channel.
pub open spec fn invert_chan(v: int) -> u8 {
    (255 - v) as u8
}

/// An inverted RGB pixel: every channel replaced by its complement.
pub open spec fn invert_rgb(p: Rgb) -> Rgb {
    Rgb { r: invert_chan(p.r as int), g: invert_chan(p.g as int), b: invert_chan(p.b as int) }
}

/// An inverted RGBA pixel: color complemented, alpha untouched.
pub open spec fn invert_rgba(p: Rgba) -> Rgba {
    Rgba {
        r: invert_chan(p.r as int),
        g: invert_chan(p.g as int),
        b: invert_chan(p.b as int),
        a: p.a,
    }
}

/// How an inverted image relates to its input: same format and
/// dimensions, every pixel complemented channel-wise (alpha kept).
pub open spec fn inverted_image(a: Image, b: Image) -> bool {
    &&& a.spec_width() == b.spec_width()
    &&& a.spec_height() == b.spec_height()
    &&& match (a, b) {
        (Image::Rgb8 { pixels: p1, .. }, Image::Rgb8 { pixels: p2, .. }) => p2@ == p1@
            .map_values(|p: Rgb| invert_rgb(p)),
        (Image::Luma8 { pixels: p1, .. }, Image::Luma8 { pixels: p2, .. }) => p2@ == p1@
            .map_values(|v: u8| invert_chan(v as int)),
        (Image::Rgba8 { pixels: p1, .. }, Image::Rgba8 { pixels: p2, .. }) => p2@ == p1@
            .map_values(|p: Rgba| invert_rgba(p)),
        _ => false,
    }
}

/// Inverts an image: each color channel becomes `255 - value`, alpha
/// (if present) passes through; format and dimensions are kept.
pub fn apply_inversion(image: &Image) -> (out: Image)
    requires
        image.wf(),
    ensures
        inverted_image(*image, out),
        out.wf(),
{
    match image {
        Image::Rgb8 { width, height, pixels } => {
            let mut out: Vec<Rgb> = Vec::new();
            let mut i: usize = 0;
            while i < pixels.len()
                invariant
                    i <= pixels.len(),
                    out@ == pixels@.subrange(0, i as int).map_values(|p: Rgb| invert_rgb(p)),
                decreases pixels.len() - i,
            {
                let p = pixels[i];
                out.push(Rgb { r: 255 - p.r, g: 255 - p.g, b: 255 - p.b });
                i = i + 1;
                proof {
                    assert(out@ =~= pixels@.subrange(0, i as int).map_values(
                        |p: Rgb| invert_rgb(p),
                    ));
                }
            }
            proof {
                assert(pixels@.subrange(0, pixels@.len() as int) =~= pixels@);
            }
            Image::Rgb8 { width: *width, height: *height, pixels: out }
        },
        Image::Luma8 { width, height, pixels } => {
            let mut out: Vec<u8> = Vec::new();
            let mut i: usize = 0;
            while i < pixels.len()
                invariant
                    i <= pixels.len(),
                    out@ == pixels@.subrange(0, i as int).map_values(
                        |v: u8| invert_chan(v as int),
                    ),
                decreases pixels.len() - i,
            {
                let v = pixels[i];
                out.push(255 - v);
                i = i + 1;
                proof {
                    assert(out@ =~= pixels@.subrange(0, i as int).map_values(
                        |v: u8| invert_chan(v as int),
                    ));
                }
            }
            proof {
                assert(pixels@.subrange(0, pixels@.len() as int) =~= pixels@);
            }
            Image::Luma8 { width: *width, height: *height, pixels: out }
        },
        Image::Rgba8 { width, height, pixels } => {
            let mut out: Vec<Rgba> = Vec::new();
            let mut i: usize = 0;
            while i < pixels.len()
                invariant
                    i <= pixels.len(),
                    out@ == pixels@.subrange(0, i as int).map_values(|p: Rgba| invert_rgba(p)),
                decreases pixels.len() - i,
            {
                let p = pixels[i];
                out.push(Rgba { r: 255 - p.r, g: 255 - p.g, b: 255 - p.b, a: p.a });
                i = i + 1;
                proof {
                    assert(out@ =~= pixels@.subrange(0, i as int).map_values(
                        |p: Rgba| invert_rgba(p),
                    ));
                }
            }
            proof {
                assert(pixels@.subrange(0, pixels@.len() as int) =~= pixels@);
            }
            Image::Rgba8 { width: *width, height: *height, pixels: out }
        },
    }
}

/// Inversion is involutive: inverting any image twice restores it
/// exactly, pixel for pixel.
pub proof fn lemma_inversion_involutive(a: Image, b: Image, c: Image)
    requires
        inverted_image(a, b),
        inverted_image(b, c),
    ensures
        image_eq(a, c),
{
    match (a, b, c) {
        (
            Image::Rgb8 { pixels: p1, .. },
            Image::Rgb8 { pixels: p2, .. },
            Image::Rgb8 { pixels: p3, .. },
        ) => {
            assert(p3@ =~= p1@);
        },
        (
            Image::Luma8 { pixels: p1, .. },
            Image::Luma8 { pixels: p2, .. },
            Image::Luma8 { pixels: p3, .. },
        ) => {
            assert(p3@ =~= p1@);
        },
        (
            Image::Rgba8 { pixels: p1, .. },
            Image::Rgba8 { pixels: p2, .. },
            Image::Rgba8 { pixels: p3, .. },
        ) => {
            assert(p3@ =~= p1@);
        },
        _ => {},
    }
}

/// One brightness-shifted channel: the sum clamped into `[0, 255]`,
/// saturating rather than wrapping.
pub open spec fn bright_chan(v: int, delta: int) -> u8 {
    if v + delta < 0 {
        0u8
    } else if v + delta > 255 {
        255u8
    } else {
        (v + delta) as u8
    }
}

/// A brightness-shifted RGB pixel.
pub open spec fn bright_rgb(p: Rgb, delta: int) -> Rgb {
    Rgb {
        r: bright_chan(p.r as int, delta),
        g: bright_chan(p.g as int, delta),
        b: bright_chan(p.b as int, delta),
    }
}

/// A brightness-shifted RGBA pixel: alpha untouched.
pub open spec fn bright_rgba(p: Rgba, delta: int) -> Rgba {
    Rgba {
        r: bright_chan(p.r as int, delta),
        g: bright_chan(p.g as int, delta),
        b: bright_chan(p.b as int, delta),
        a: p.a,
    }
}

/// How a brightness-shifted image relates to its input.
pub open spec fn brightened_image(a: Image, delta: int, b: Image) -> bool {
    &&& a.spec_width() == b.spec_width()
    &&& a.spec_height() == b.spec_height()
    &&& match (a, b) {
        (Image::Rgb8 { pixels: p1, .. }, Image::Rgb8 { pixels: p2, .. }) => p2@ == p1@
            .map_values(|p: Rgb| bright_rgb(p, delta)),
        (Image::Luma8 { pixels: p1, .. }, Image::Luma8 { pixels: p2, .. }) => p2@ == p1@
            .map_values(|v: u8| bright_chan(v as int, delta)),
        (Image::Rgba8 { pixels: p1, .. }, Image::Rgba8 { pixels: p2, .. }) => p2@ == p1@
            .map_values(|p: Rgba| bright_rgba(p, delta)),
        _ => false,
    }
}

/// One channel shifted in 32-bit arithmetic.
fn bright_chan_exec(v: u8, value: i16) -> (out: u8)
    ensures
        out == bright_chan(v as int, value as int),
{
    let shifted: i32 = (v as i32) + (value as i32);
    if shifted < 0 {
        0
    } else if shifted > 255 {
        255
    } else {
        shifted as u8
    }
}

/// Shifts the brightness of every pixel by `value`, saturating at 0 and
/// 255; alpha (if present) passes through; format and dimensions are
/// kept. A shift of zero is the identity.
pub fn apply_brightness(image: &Image, value: i16) -> (out: Image)
    requires
        image.wf(),
    ensures
        brightened_image(*image, value as int, out),
        out.wf(),
{
    match image {
        Image::Rgb8 { width, height, pixels } => {
            let mut out: Vec<Rgb> = Vec::new();
            let mut i: usize = 0;
            while i < pixels.len()
                invariant
                    i <= pixels.len(),
                    out@ == pixels@.subrange(0, i as int).map_values(
                        |p: Rgb| bright_rgb(p, value as int),
                    ),
                decreases pixels.len() - i,
            {
                let p = pixels[i];
                out.push(
                    Rgb {
                        r: bright_chan_exec(p.r, value),
                        g: bright_chan_exec(p.g, value),
                        b: bright_chan_exec(p.b, value),
                    },
                );
                i = i + 1;
                proof {
                    assert(out@ =~= pixels@.subrange(0, i as int).map_values(
                        |p: Rgb| bright_rgb(p, value as int),
                    ));
                }
            }
            proof {
                assert(pixels@.subrange(0, pixels@.len() as int) =~= pixels@);
            }
            Image::Rgb8 { width: *width, height: *height, pixels: out }
        },
        Image::Luma8 { width, height, pixels } => {
            let mut out: Vec<u8> = Vec::new();
            let mut i: usize = 0;
            while i < pixels.len()
                invariant
                    i <= pixels.len(),
                    out@ == pixels@.subrange(0, i as int).map_values(
                        |v: u8| bright_chan(v as int, value as int),
                    ),
                decreases pixels.len() - i,
            {
                let v = pixels[i];
                out.push(bright_chan_exec(v, value));
                i = i + 1;
                proof {
                    assert(out@ =~= pixels@.subrange(0, i as int).map_values(
                        |v: u8| bright_chan(v as int, value as int),
                    ));
                }
            }
            proof {
                assert(pixels@.subrange(0, pixels@.len() as int) =~= pixels@);
            }
            Image::Luma8 { width: *width, height: *height, pixels: out }
        },
        Image::Rgba8 { width, height, pixels } => {
            let mut out: Vec<Rgba> = Vec::new();
            let mut i: usize = 0;
            while i < pixels.len()
                invariant
                    i <= pixels.len(),
                    out@ == pixels@.subrange(0, i as int).map_values(
                        |p: Rgba| bright_rgba(p, value as int),
                    ),
                decreases pixels.len() - i,
            {
                let p = pixels[i];
                out.push(
                    Rgba {
                        r: bright_chan_exec(p.r, value),
                        g: bright_chan_exec(p.g, value),
                        b: bright_chan_exec(p.b, value),
                        a: p.a,
                    },
                );
                i = i + 1;
                proof {
                    assert(out@ =~= pixels@.subrange(0, i as int).map_values(
                        |p: Rgba| bright_rgba(p, value as int),
                    ));
                }
            }
            proof {
                assert(pixels@.subrange(0, pixels@.len() as int) =~= pixels@);
            }
            Image::Rgba8 { width: *width, height: *height, pixels: out }
        },
    }
}

/// A brightness shift of zero is the identity: the output equals the
/// input exactly.
pub proof fn lemma_brightness_zero_identity(a: Image, b: Image)
    requires
        brightened_image(a, 0, b),
    ensures
        image_eq(a, b),
{
    match (a, b) {
        (Image::Rgb8 { pixels: p1, .. }, Image::Rgb8 { pixels: p2, .. }) => {
            assert(p2@ =~= p1@);
        },
        (Image::Luma8 { pixels: p1, .. }, Image::Luma8 { pixels: p2, .. }) => {
            assert(p2@ =~= p1@);
        },
        (Image::Rgba8 { pixels: p1, .. }, Image::Rgba8 { pixels: p2, .. }) => {
            assert(p2@ =~= p1@);
        },
        _ => {},
    }
}

/// One binarized intensity: white exactly for intensities strictly
/// above the cut, black otherwise.
pub open spec fn threshold_val(l: int, t: int) -> u8 {
    if l > t {
        255u8
    } else {
        0u8
    }
}

/// How a thresholded image relates to its input: a single-channel
/// binary image of the same dimensions, each pixel the binarized
/// grayscale intensity of the input pixel.
pub open spec fn thresholded_image(a: Image, t: int, b: Image) -> bool {
    &&& a.spec_width() == b.spec_width()
    &&& a.spec_height() == b.spec_height()
    &&& b matches Image::Luma8 { pixels, .. } && pixels@.len() == a.luma_seq().len()
        && (forall|i: int|
        0 <= i < pixels@.len() ==> pixels@[i] == threshold_val(a.luma_seq()[i] as int, t))
}

/// Binarizes an image at the given cut: pixels whose grayscale
/// intensity is strictly greater than `threshold` become white (255),
/// all others black (0). The result is single-channel whatever the
/// input format.
pub fn apply_manual_threshold(image: &Image, threshold: u8) -> (out: Image)
    requires
        image.wf(),
    ensures
        thresholded_image(*image, threshold as int, out),
        out.wf(),
{
    let gray = luma_pixels(image);
    let mut out: Vec<u8> = Vec::new();
    let mut i: usize = 0;
    while i < gray.len()
        invariant
            i <= gray.len(),
            gray@ == image.luma_seq(),
            out@.len() == i,
            forall|j: int|
                0 <= j < i ==> out@[j] == threshold_val(
                    image.luma_seq()[j] as int,
                    threshold as int,
                ),
        decreases gray.len() - i,
    {
        let v: u8 = if gray[i] > threshold {
            255
        } else {
            0
        };
        out.push(v);
        i = i + 1;
    }
    Image::Luma8 { width: image.width(), height: image.height(), pixels: out }
}

} // verus!

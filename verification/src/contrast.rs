//! Linear contrast stretch: remap the HSV value channel so the
//! image's observed value range fills `[0, 1]`.
//!
//! Two passes: a global minimum/maximum scan of the value channel,
//! then a per-pixel remap through exact HSV arithmetic. A flat image
//! (no value spread) is returned unchanged, and so is an image that
//! already spans the full range.

use vstd::prelude::*;
use crate::color::{Rgb, Hsv, max3, rgb_to_hsv, hsv_to_rgb, rgb_hsv_spec, rgb_chans_of_hsv};
use crate::round_trip::lemma_hsv_round_trip;
use crate::raster::{Image, rgb_pixels};

verus! {

/// The value channel of a pixel, scaled to `[0, 255]`: its largest
/// channel.
pub open spec fn value255(p: Rgb) -> int {
    max3(p.r as int, p.g as int, p.b as int)
}

/// The smallest value over the first `n` pixels, starting from 255 so
/// that any real pixel lowers it.
pub open spec fn vmin_pref(s: Seq<Rgb>, n: int) -> int
    decreases n,
{
    if n <= 0 {
        255
    } else {
        let prev = vmin_pref(s, n - 1);
        let v = value255(s[n - 1]);
        if v < prev {
            v
        } else {
            prev
        }
    }
}

/// The largest value over the first `n` pixels, starting from 0.
pub open spec fn vmax_pref(s: Seq<Rgb>, n: int) -> int
    decreases n,
{
    if n <= 0 {
        0
    } else {
        let prev = vmax_pref(s, n - 1);
        let v = value255(s[n - 1]);
        if v > prev {
            v
        } else {
            prev
        }
    }
}

/// The channels of a pixel after its value is remapped from the range
/// `[vmin, vmax]` onto `[0, 1]`; hue and saturation are preserved.
pub open spec fn stretch_px(p: Rgb, vmin: int, vmax: int) -> (int, int, int) {
    let h0 = rgb_hsv_spec(p);
    rgb_chans_of_hsv(
        Hsv {
            h_num: h0.h_num,
            h_den: h0.h_den,
            s_num: h0.s_num,
            s_den: h0.s_den,
            v_num: (value255(p) - vmin) as u32,
            v_den: (vmax - vmin) as u32,
        },
    )
}

/// How a contrast-stretched image relates to its input: an RGB image
/// of the same dimensions; if the input has any value spread, every
/// pixel's value is remapped onto the full range, otherwise (a flat or
/// empty image) the pixels are unchanged.
pub open spec fn stretched_image(a: Image, b: Image) -> bool {
    let s = a.rgb_seq();
    let vmin = vmin_pref(s, s.len() as int);
    let vmax = vmax_pref(s, s.len() as int);
    &&& a.spec_width() == b.spec_width()
    &&& a.spec_height() == b.spec_height()
    &&& b matches Image::Rgb8 { pixels, .. } && pixels@.len() == s.len() && (if vmax > vmin {
        forall|i: int|
            0 <= i < s.len() ==> (#[trigger] pixels@[i].r as int, pixels@[i].g as int,
            pixels@[i].b as int) == stretch_px(s[i], vmin, vmax)
    } else {
        forall|i: int| 0 <= i < s.len() ==> #[trigger] pixels@[i] == s[i]
    })
}

/// Every pixel's value lies between the prefix minimum and maximum.
proof fn lemma_v_bounds(s: Seq<Rgb>, i: int, n: int)
    requires
        0 <= i < n <= s.len(),
    ensures
        0 <= vmin_pref(s, n) <= value255(s[i]) <= vmax_pref(s, n) <= 255,
    decreases n,
{
    lemma_extrema_range(s, n - 1);
    if i < n - 1 {
        lemma_v_bounds(s, i, n - 1);
    }
}

/// The prefix extrema always stay within `[0, 255]`.
proof fn lemma_extrema_range(s: Seq<Rgb>, n: int)
    requires
        n <= s.len(),
    ensures
        0 <= vmin_pref(s, n) <= 255,
        0 <= vmax_pref(s, n) <= 255,
    decreases n,
{
    if n > 0 {
        lemma_extrema_range(s, n - 1);
    }
}

/// The largest of three channels, matching `max3`.
fn max3_exec(p: Rgb) -> (out: u8)
    ensures
        out as int == value255(p),
{
    if p.r >= p.g && p.r >= p.b {
        p.r
    } else if p.g >= p.b {
        p.g
    } else {
        p.b
    }
}

/// Stretches the contrast of an image: scans the HSV value channel for
/// its global minimum and maximum, then remaps every pixel's value
/// linearly onto the full range, keeping hue and saturation. A flat or
/// empty image comes back unchanged (as RGB); the result always has
/// the input's dimensions and RGB format.
pub fn apply_linear_contrast(image: &Image) -> (out: Image)
    requires
        image.wf(),
    ensures
        stretched_image(*image, out),
        out.wf(),
{
    let rgb = rgb_pixels(image);
    let ghost s = image.rgb_seq();
    let mut vmin: u8 = 255;
    let mut vmax: u8 = 0;
    let mut i: usize = 0;
    while i < rgb.len()
        invariant
            i <= rgb.len(),
            rgb@ == s,
            vmin as int == vmin_pref(s, i as int),
            vmax as int == vmax_pref(s, i as int),
        decreases rgb.len() - i,
    {
        let v = max3_exec(rgb[i]);
        if v < vmin {
            vmin = v;
        }
        if v > vmax {
            vmax = v;
        }
        i = i + 1;
    }
    let mut out: Vec<Rgb> = Vec::new();
    if vmax > vmin {
        let mut j: usize = 0;
        while j < rgb.len()
            invariant
                j <= rgb.len(),
                rgb@ == s,
                vmax > vmin,
                vmin as int == vmin_pref(s, s.len() as int),
                vmax as int == vmax_pref(s, s.len() as int),
                out@.len() == j,
                forall|k: int|
                    0 <= k < j ==> (#[trigger] out@[k].r as int, out@[k].g as int,
                    out@[k].b as int) == stretch_px(s[k], vmin as int, vmax as int),
            decreases rgb.len() - j,
        {
            let p = rgb[j];
            proof {
                lemma_v_bounds(s, j as int, s.len() as int);
            }
            let hsv = rgb_to_hsv(p);
            let v = max3_exec(p);
            let h2 = Hsv {
                h_num: hsv.h_num,
                h_den: hsv.h_den,
                s_num: hsv.s_num,
                s_den: hsv.s_den,
                v_num: (v - vmin) as u32,
                v_den: (vmax - vmin) as u32,
            };
            let q = hsv_to_rgb(h2);
            out.push(q);
            j = j + 1;
        }
    } else {
        let mut j: usize = 0;
        while j < rgb.len()
            invariant
                j <= rgb.len(),
                rgb@ == s,
                out@.len() == j,
                forall|k: int| 0 <= k < j ==> #[trigger] out@[k] == s[k],
            decreases rgb.len() - j,
        {
            out.push(rgb[j]);
            j = j + 1;
        }
    }
    Image::Rgb8 { width: image.width(), height: image.height(), pixels: out }
}

/// Stretching an image that already spans the full value range (some
/// pixel at value zero, some at full value) is the identity on the
/// pixels: a second application of the stretch can change nothing
/// beyond the first.
pub proof fn lemma_stretch_full_range_identity(a: Image, b: Image)
    requires
        stretched_image(a, b),
        vmin_pref(a.rgb_seq(), a.rgb_seq().len() as int) == 0,
        vmax_pref(a.rgb_seq(), a.rgb_seq().len() as int) == 255,
    ensures
        b matches Image::Rgb8 { pixels, .. } && pixels@ == a.rgb_seq(),
{
    let s = a.rgb_seq();
    match b {
        Image::Rgb8 { pixels, .. } => {
            assert forall|i: int| 0 <= i < s.len() implies pixels@[i] == s[i] by {
                lemma_hsv_round_trip(s[i]);
                assert(rgb_hsv_spec(s[i]).v_num == value255(s[i]));
                assert((pixels@[i].r as int, pixels@[i].g as int, pixels@[i].b as int)
                    == stretch_px(s[i], 0, 255));
            }
            assert(pixels@ =~= s);
        },
        _ => {},
    }
}

} // verus!

//! The color conversions invert each other exactly.
//!
//! Because hue, saturation and value are exact rationals, converting an
//! 8-bit RGB pixel to HSV and back loses nothing: the quantization error
//! is zero, well within the one-step bound the conversions allow.

use vstd::prelude::*;
use crate::color::{
    Rgb,
    Hsv,
    max3,
    min3,
    rgb_hsv_spec,
    lemma_rgb_hsv_spec_fields,
    hsv_sector,
    hsv_fsc,
    c_num,
    cm_den,
    m_num,
    x_num,
    x_den,
    chan255,
    lemma_chan255_exact,
    rgb_chans_of_hsv,
};
use vstd::arithmetic::div_mod::lemma_fundamental_div_mod_converse;

verus! {

/// Evaluates the scaled in-sector position once the half-turn count
/// `j` of the hue is known, turning the inner product into a linear
/// expression.
proof fn lemma_fsc_eval(hn: int, hd: int, j: int)
    requires
        hd >= 1,
        hn / (120 * hd) == j,
    ensures
        hsv_fsc(hn, hd) == ({
            let t = hn - 120 * hd * j;
            if t <= 60 * hd {
                t
            } else {
                2 * (60 * hd) - t
            }
        }),
{
    assert(120 * hd * (hn / (120 * hd)) == 120 * hd * j) by (nonlinear_arith)
        requires
            hn / (120 * hd) == j,
    ;
}

/// The three channels produced by a chromatic HSV value that came from
/// an RGB pixel with maximum `mx`, minimum `mn2` and in-sector offset
/// `e`: the full channel is `mx`, the empty one `mn2`, and the middle
/// one `mn2 + e`, each exactly.
proof fn lemma_chans_of_sector(h: Hsv, mx: int, mn2: int, e: int)
    requires
        h.v_num == mx,
        h.v_den == 255,
        h.s_num == mx - mn2,
        h.s_den == mx,
        h.h_den == mx - mn2,
        1 <= mx <= 255,
        0 <= mn2 < mx,
        0 <= e <= mx - mn2,
        hsv_fsc(h.h_num as int, h.h_den as int) == 60 * e,
    ensures
        chan255(c_num(h), cm_den(h), m_num(h), cm_den(h)) == mx,
        chan255(x_num(h), x_den(h), m_num(h), cm_den(h)) == mn2 + e,
        chan255(0, 1, m_num(h), cm_den(h)) == mn2,
{
    let d = mx - mn2;
    assert(c_num(h) == mx * d && cm_den(h) == 255 * mx && m_num(h) == mx * mn2)
        by (nonlinear_arith)
        requires
            c_num(h) == h.v_num * h.s_num,
            cm_den(h) == h.v_den * h.s_den,
            m_num(h) == h.v_num * (h.s_den - h.s_num),
            h.v_num == mx,
            h.v_den == 255,
            h.s_num == d,
            h.s_den == mx,
            d == mx - mn2,
    ;
    assert(x_num(h) == (mx * d) * (60 * e) && x_den(h) == (255 * mx) * (60 * d))
        by (nonlinear_arith)
        requires
            x_num(h) == c_num(h) * hsv_fsc(h.h_num as int, h.h_den as int),
            x_den(h) == cm_den(h) * (60 * h.h_den),
            c_num(h) == mx * d,
            cm_den(h) == 255 * mx,
            hsv_fsc(h.h_num as int, h.h_den as int) == 60 * e,
            h.h_den == d,
    ;
    assert(255 * (c_num(h) * cm_den(h) + m_num(h) * cm_den(h)) == (cm_den(h) * cm_den(h))
        * mx) by (nonlinear_arith)
        requires
            c_num(h) == mx * d,
            cm_den(h) == 255 * mx,
            m_num(h) == mx * mn2,
            d == mx - mn2,
    ;
    lemma_chan255_exact(c_num(h), cm_den(h), m_num(h), cm_den(h), mx);
    assert(255 * (x_num(h) * cm_den(h) + m_num(h) * x_den(h)) == (x_den(h) * cm_den(h)) * (
    mn2 + e)) by (nonlinear_arith)
        requires
            x_num(h) == (mx * d) * (60 * e),
            x_den(h) == (255 * mx) * (60 * d),
            cm_den(h) == 255 * mx,
            m_num(h) == mx * mn2,
    ;
    assert(x_den(h) > 0) by (nonlinear_arith)
        requires
            x_den(h) == (255 * mx) * (60 * d),
            mx >= 1,
            d >= 1,
    ;
    lemma_chan255_exact(x_num(h), x_den(h), m_num(h), cm_den(h), mn2 + e);
    assert(255 * (0 * cm_den(h) + m_num(h) * 1) == (1 * cm_den(h)) * mn2) by (nonlinear_arith)
        requires
            cm_den(h) == 255 * mx,
            m_num(h) == mx * mn2,
    ;
    lemma_chan255_exact(0, 1, m_num(h), cm_den(h), mn2);
}

/// An achromatic HSV value (hue and saturation zero) converts back to
/// the gray pixel with all channels at the value's numerator.
proof fn lemma_chans_gray(h: Hsv, mx: int)
    requires
        h.v_num == mx,
        h.v_den == 255,
        h.h_num == 0,
        h.h_den == 1,
        h.s_num == 0,
        1 <= h.s_den <= 255,
        0 <= mx <= 255,
    ensures
        rgb_chans_of_hsv(h) == (mx, mx, mx),
{
    let sd = h.s_den as int;
    lemma_fundamental_div_mod_converse(0, 60, 0, 0);
    lemma_fundamental_div_mod_converse(0, 120, 0, 0);
    lemma_fsc_eval(0, 1, 0);
    assert(hsv_sector(0, 1) == 0);
    assert(hsv_fsc(0, 1) == 0);
    assert(c_num(h) == 0 && cm_den(h) == 255 * sd && m_num(h) == mx * sd && x_num(h) == 0
        && x_den(h) == (255 * sd) * 60) by (nonlinear_arith)
        requires
            c_num(h) == h.v_num * h.s_num,
            cm_den(h) == h.v_den * h.s_den,
            m_num(h) == h.v_num * (h.s_den - h.s_num),
            x_num(h) == c_num(h) * hsv_fsc(h.h_num as int, h.h_den as int),
            x_den(h) == cm_den(h) * (60 * h.h_den),
            h.v_num == mx,
            h.v_den == 255,
            h.s_num == 0,
            h.s_den == sd,
            h.h_den == 1,
            hsv_fsc(0, 1) == 0,
    ;
    assert(255 * (0 * cm_den(h) + m_num(h) * cm_den(h)) == (cm_den(h) * cm_den(h)) * mx)
        by (nonlinear_arith)
        requires
            cm_den(h) == 255 * sd,
            m_num(h) == mx * sd,
    ;
    assert(cm_den(h) > 0) by (nonlinear_arith)
        requires
            cm_den(h) == 255 * sd,
            sd >= 1,
    ;
    lemma_chan255_exact(c_num(h), cm_den(h), m_num(h), cm_den(h), mx);
    assert(255 * (x_num(h) * cm_den(h) + m_num(h) * x_den(h)) == (x_den(h) * cm_den(h)) * mx)
        by (nonlinear_arith)
        requires
            x_num(h) == 0,
            x_den(h) == (255 * sd) * 60,
            cm_den(h) == 255 * sd,
            m_num(h) == mx * sd,
    ;
    assert(x_den(h) > 0) by (nonlinear_arith)
        requires
            x_den(h) == (255 * sd) * 60,
            sd >= 1,
    ;
    lemma_chan255_exact(x_num(h), x_den(h), m_num(h), cm_den(h), mx);
    assert(255 * (0 * cm_den(h) + m_num(h) * 1) == (1 * cm_den(h)) * mx) by (nonlinear_arith)
        requires
            cm_den(h) == 255 * sd,
            m_num(h) == mx * sd,
    ;
    lemma_chan255_exact(0, 1, m_num(h), cm_den(h), mx);
}

/// Converting an 8-bit RGB pixel to HSV and back restores it exactly:
/// the round trip loses nothing, so the two conversions differ from
/// identity by zero, within any per-channel quantization bound.
pub proof fn lemma_hsv_round_trip(p: Rgb)
    ensures
        rgb_hsv_spec(p).wf(),
        rgb_chans_of_hsv(rgb_hsv_spec(p)) == (p.r as int, p.g as int, p.b as int),
{
    lemma_rgb_hsv_spec_fields(p);
    let r = p.r as int;
    let g = p.g as int;
    let b = p.b as int;
    let mx = max3(r, g, b);
    let mn2 = min3(r, g, b);
    let d = mx - mn2;
    let h = rgb_hsv_spec(p);
    let hn = h.h_num as int;
    if d == 0 {
        lemma_chans_gray(h, mx);
    } else if mx == r {
        if g >= b {
            let e = g - b;
            assert(hn == 60 * e);
            lemma_fundamental_div_mod_converse(hn, 120 * d, 0, hn);
            lemma_fsc_eval(hn, d, 0);
            if e < d {
                lemma_fundamental_div_mod_converse(hn, 60 * d, 0, hn);
                assert(hsv_sector(hn, d) == 0);
            } else {
                lemma_fundamental_div_mod_converse(hn, 60 * d, 1, 0);
                assert(hsv_sector(hn, d) == 1);
                assert(g == mx);
            }
            assert(hsv_fsc(hn, d) == 60 * e);
            lemma_chans_of_sector(h, mx, mn2, e);
        } else {
            let e = b - g;
            assert(hn == 360 * d - 60 * e);
            lemma_fundamental_div_mod_converse(hn, 120 * d, 2, hn - 240 * d);
            lemma_fsc_eval(hn, d, 2);
            lemma_fundamental_div_mod_converse(hn, 60 * d, 5, hn - 300 * d);
            assert(hsv_sector(hn, d) == 5);
            assert(hsv_fsc(hn, d) == 60 * e);
            lemma_chans_of_sector(h, mx, mn2, e);
        }
    } else if mx == g {
        if b < r {
            let e = r - b;
            assert(hn == 120 * d - 60 * e);
            lemma_fundamental_div_mod_converse(hn, 120 * d, 0, hn);
            lemma_fsc_eval(hn, d, 0);
            lemma_fundamental_div_mod_converse(hn, 60 * d, 1, hn - 60 * d);
            assert(hsv_sector(hn, d) == 1);
            assert(hsv_fsc(hn, d) == 60 * e);
            lemma_chans_of_sector(h, mx, mn2, e);
        } else {
            let e = b - r;
            assert(hn == 120 * d + 60 * e);
            if e < d {
                lemma_fundamental_div_mod_converse(hn, 120 * d, 1, hn - 120 * d);
                lemma_fsc_eval(hn, d, 1);
                lemma_fundamental_div_mod_converse(hn, 60 * d, 2, hn - 120 * d);
                assert(hsv_sector(hn, d) == 2);
            } else {
                lemma_fundamental_div_mod_converse(hn, 120 * d, 1, hn - 120 * d);
                lemma_fsc_eval(hn, d, 1);
                lemma_fundamental_div_mod_converse(hn, 60 * d, 3, 0);
                assert(hsv_sector(hn, d) == 3);
                assert(b == mx);
            }
            assert(hsv_fsc(hn, d) == 60 * e);
            lemma_chans_of_sector(h, mx, mn2, e);
        }
    } else {
        if r >= g {
            let e = r - g;
            assert(hn == 240 * d + 60 * e);
            assert(e < d);
            lemma_fundamental_div_mod_converse(hn, 120 * d, 2, hn - 240 * d);
            lemma_fsc_eval(hn, d, 2);
            lemma_fundamental_div_mod_converse(hn, 60 * d, 4, hn - 240 * d);
            assert(hsv_sector(hn, d) == 4);
            assert(hsv_fsc(hn, d) == 60 * e);
            lemma_chans_of_sector(h, mx, mn2, e);
        } else {
            let e = g - r;
            assert(hn == 240 * d - 60 * e);
            assert(e < d);
            lemma_fundamental_div_mod_converse(hn, 120 * d, 1, hn - 120 * d);
            lemma_fsc_eval(hn, d, 1);
            lemma_fundamental_div_mod_converse(hn, 60 * d, 3, hn - 180 * d);
            assert(hsv_sector(hn, d) == 3);
            assert(hsv_fsc(hn, d) == 60 * e);
            lemma_chans_of_sector(h, mx, mn2, e);
        }
    }
}

} // verus!

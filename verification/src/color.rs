//! RGB and HSV pixel values and the conversion between them.
//!
//! Hue, saturation and value are kept as exact rationals (a numerator
//! and a positive denominator), so the conversions are exact: no
//! floating point is involved, and converting a pixel to HSV and back
//! restores it precisely (see `round_trip`).

use vstd::prelude::*;

verus! {

/// One 8-bit RGB pixel.
#[derive(Clone, Copy, PartialEq, Eq, Structural, Debug)]
pub struct Rgb {
    pub r: u8,
    pub g: u8,
    pub b: u8,
}

/// An exact HSV value.
///
/// Hue is `h_num / h_den` degrees in `[0, 360)`, saturation is
/// `s_num / s_den` in `[0, 1]` and value is `v_num / v_den` in `[0, 1]`.
#[derive(Clone, Copy, PartialEq, Eq, Structural, Debug)]
pub struct Hsv {
    pub h_num: u32,
    pub h_den: u32,
    pub s_num: u32,
    pub s_den: u32,
    pub v_num: u32,
    pub v_den: u32,
}

impl Hsv {
    /// The representation invariant: denominators are positive and small
    /// enough for exact 128-bit evaluation, hue is below 360 degrees,
    /// saturation and value are at most one.
    pub open spec fn wf(self) -> bool {
        &&& 1 <= self.h_den <= 65535
        &&& 1 <= self.s_den <= 65535
        &&& 1 <= self.v_den <= 65535
        &&& self.h_num < 360 * self.h_den
        &&& self.s_num <= self.s_den
        &&& self.v_num <= self.v_den
    }
}

/// The largest of three channel values; ties prefer `r`, then `g`.
pub open spec fn max3(r: int, g: int, b: int) -> int {
    if r >= g && r >= b {
        r
    } else if g >= b {
        g
    } else {
        b
    }
}

/// The smallest of three channel values.
pub open spec fn min3(r: int, g: int, b: int) -> int {
    if r <= g && r <= b {
        r
    } else if g <= b {
        g
    } else {
        b
    }
}

/// The hue numerator over denominator `hue_den`: the standard 60-degree
/// sector formulas, scaled by the chroma `max3 - min3` so that the value
/// is an integer, with 360 degrees added where the formula is negative.
pub open spec fn hue_num(r: int, g: int, b: int) -> int {
    let d = max3(r, g, b) - min3(r, g, b);
    if d == 0 {
        0
    } else if max3(r, g, b) == r {
        if g >= b {
            60 * (g - b)
        } else {
            60 * (g - b) + 360 * d
        }
    } else if max3(r, g, b) == g {
        60 * (b - r) + 120 * d
    } else {
        60 * (r - g) + 240 * d
    }
}

/// The hue denominator: the chroma, or one for an achromatic pixel.
pub open spec fn hue_den(r: int, g: int, b: int) -> int {
    let d = max3(r, g, b) - min3(r, g, b);
    if d == 0 {
        1
    } else {
        d
    }
}

/// The saturation numerator (chroma, or zero for black).
pub open spec fn sat_num(r: int, g: int, b: int) -> int {
    if max3(r, g, b) == 0 {
        0
    } else {
        max3(r, g, b) - min3(r, g, b)
    }
}

/// The saturation denominator (the maximum channel, or one for black).
pub open spec fn sat_den(r: int, g: int, b: int) -> int {
    if max3(r, g, b) == 0 {
        1
    } else {
        max3(r, g, b)
    }
}

/// The exact HSV value of an RGB pixel.
pub open spec fn rgb_hsv_spec(p: Rgb) -> Hsv {
    let r = p.r as int;
    let g = p.g as int;
    let b = p.b as int;
    Hsv {
        h_num: hue_num(r, g, b) as u32,
        h_den: hue_den(r, g, b) as u32,
        s_num: sat_num(r, g, b) as u32,
        s_den: sat_den(r, g, b) as u32,
        v_num: max3(r, g, b) as u32,
        v_den: 255u32,
    }
}

/// The casts in `rgb_hsv_spec` never truncate, and the result is
/// well formed with its fields equal to the defining formulas.
pub proof fn lemma_rgb_hsv_spec_fields(p: Rgb)
    ensures
        rgb_hsv_spec(p).wf(),
        rgb_hsv_spec(p).h_num as int == hue_num(p.r as int, p.g as int, p.b as int),
        rgb_hsv_spec(p).h_den as int == hue_den(p.r as int, p.g as int, p.b as int),
        rgb_hsv_spec(p).s_num as int == sat_num(p.r as int, p.g as int, p.b as int),
        rgb_hsv_spec(p).s_den as int == sat_den(p.r as int, p.g as int, p.b as int),
        rgb_hsv_spec(p).v_num as int == max3(p.r as int, p.g as int, p.b as int),
        rgb_hsv_spec(p).v_den == 255,
{
}

/// Converts an 8-bit RGB pixel to its exact HSV value.
///
/// Hue lies in `[0, 360)` degrees, saturation and value in `[0, 1]`;
/// a gray pixel has hue 0 and saturation 0, and black also has value 0.
pub fn rgb_to_hsv(p: Rgb) -> (out: Hsv)
    ensures
        out == rgb_hsv_spec(p),
        out.wf(),
        p.r == p.g && p.g == p.b ==> out.h_num == 0 && out.s_num == 0,
        p.r == 0 && p.g == 0 && p.b == 0 ==> out.v_num == 0,
{
    proof {
        lemma_rgb_hsv_spec_fields(p);
    }
    let cmax: u8 = if p.r >= p.g && p.r >= p.b {
        p.r
    } else if p.g >= p.b {
        p.g
    } else {
        p.b
    };
    let cmin: u8 = if p.r <= p.g && p.r <= p.b {
        p.r
    } else if p.g <= p.b {
        p.g
    } else {
        p.b
    };
    let d: u8 = cmax - cmin;
    let du: u32 = d as u32;
    let (h_num, h_den): (u32, u32) = if d == 0 {
        (0u32, 1u32)
    } else if cmax == p.r {
        if p.g >= p.b {
            (60 * (p.g as u32) - 60 * (p.b as u32), du)
        } else {
            (60 * (p.g as u32) + 360 * du - 60 * (p.b as u32), du)
        }
    } else if cmax == p.g {
        (60 * (p.b as u32) + 120 * du - 60 * (p.r as u32), du)
    } else {
        (60 * (p.r as u32) + 240 * du - 60 * (p.g as u32), du)
    };
    let (s_num, s_den): (u32, u32) = if cmax == 0 {
        (0u32, 1u32)
    } else {
        (du, cmax as u32)
    };
    Hsv { h_num, h_den, s_num, s_den, v_num: cmax as u32, v_den: 255u32 }
}

/// Which of the six 60-degree hue sectors the hue falls into (0 to 5).
pub open spec fn hsv_sector(h_num: int, h_den: int) -> int {
    h_num / (60 * h_den)
}

/// `1 - |(h/60 mod 2) - 1|`, scaled by `60 * h_den` so it is an integer.
pub open spec fn hsv_fsc(h_num: int, h_den: int) -> int {
    let dd = 60 * h_den;
    let t = h_num - 120 * h_den * (h_num / (120 * h_den));
    if t <= dd {
        t
    } else {
        2 * dd - t
    }
}

/// The chroma numerator `c = v * s`, over denominator `cm_den`.
pub open spec fn c_num(h: Hsv) -> int {
    h.v_num * h.s_num
}

/// The common denominator of the chroma `c` and the match value `m`.
pub open spec fn cm_den(h: Hsv) -> int {
    h.v_den * h.s_den
}

/// The match value numerator `m = v - c`, over denominator `cm_den`.
pub open spec fn m_num(h: Hsv) -> int {
    h.v_num * (h.s_den - h.s_num)
}

/// The middle component numerator `x = c * fsc`, over denominator `x_den`.
pub open spec fn x_num(h: Hsv) -> int {
    c_num(h) * hsv_fsc(h.h_num as int, h.h_den as int)
}

/// The denominator of the middle component `x`.
pub open spec fn x_den(h: Hsv) -> int {
    cm_den(h) * (60 * h.h_den)
}

/// One 8-bit output channel: `(component + m) * 255`, rounded toward
/// zero, for a component `cn / cd` and a match value `mn / md`.
pub open spec fn chan255(cn: int, cd: int, mn: int, md: int) -> int {
    (255 * (cn * md + mn * cd)) / (cd * md)
}

/// The exact RGB channels an HSV value converts to, as a triple of
/// integers: each channel is the sector's component plus `m`, times 255,
/// rounded toward zero.
pub open spec fn rgb_chans_of_hsv(h: Hsv) -> (int, int, int) {
    let k = hsv_sector(h.h_num as int, h.h_den as int);
    let cc = chan255(c_num(h), cm_den(h), m_num(h), cm_den(h));
    let xx = chan255(x_num(h), x_den(h), m_num(h), cm_den(h));
    let zz = chan255(0, 1, m_num(h), cm_den(h));
    if k == 0 {
        (cc, xx, zz)
    } else if k == 1 {
        (xx, cc, zz)
    } else if k == 2 {
        (zz, cc, xx)
    } else if k == 3 {
        (zz, xx, cc)
    } else if k == 4 {
        (xx, zz, cc)
    } else {
        (cc, zz, xx)
    }
}

/// When the numerator equals the denominator times `q`, the channel
/// division is exact and yields `q`.
pub proof fn lemma_chan255_exact(cn: int, cd: int, mn: int, md: int, q: int)
    requires
        cd > 0,
        md > 0,
        255 * (cn * md + mn * cd) == (cd * md) * q,
    ensures
        chan255(cn, cd, mn, md) == q,
{
    assert(cd * md > 0) by (nonlinear_arith)
        requires
            cd > 0,
            md > 0,
    ;
    vstd::arithmetic::div_mod::lemma_div_multiples_vanish(q, cd * md);
}

/// One output channel, evaluated exactly in 128-bit arithmetic.
fn chan255_exec(cn: u128, cd: u128, mn: u64, md: u64) -> (out: u8)
    requires
        1 <= cd < 0x40000000000000,
        cn < 0x40000000000000,
        md >= 1,
        cn * (md as int) + (mn as int) * cd <= cd * (md as int),
    ensures
        out as int == chan255(cn as int, cd as int, mn as int, md as int),
{
    proof {
        assert((cn as int) * (md as int) < 0x40000000000000 * 0x10000000000000000)
            by (nonlinear_arith)
            requires
                cn < 0x40000000000000,
                md < 0x10000000000000000,
                cn >= 0,
                md >= 0,
        ;
        assert((mn as int) * (cd as int) < 0x10000000000000000 * 0x40000000000000)
            by (nonlinear_arith)
            requires
                mn < 0x10000000000000000,
                cd < 0x40000000000000,
                mn >= 0,
                cd >= 0,
        ;
        assert(1 <= (cd as int) * (md as int) < 0x40000000000000 * 0x10000000000000000)
            by (nonlinear_arith)
            requires
                1 <= cd < 0x40000000000000,
                1 <= md < 0x10000000000000000,
        ;
    }
    let num: u128 = 255 * (cn * (md as u128) + (mn as u128) * cd);
    let den: u128 = cd * (md as u128);
    proof {
        assert(num <= 255 * (den as int)) by (nonlinear_arith)
            requires
                num == 255 * ((cn as int) * (md as int) + (mn as int) * (cd as int)),
                den == (cd as int) * (md as int),
                (cn as int) * (md as int) + (mn as int) * (cd as int) <= (cd as int) * (
                md as int),
        ;
        vstd::arithmetic::div_mod::lemma_div_is_ordered(
            num as int,
            255 * (den as int),
            den as int,
        );
        vstd::arithmetic::div_mod::lemma_div_multiples_vanish(255, den as int);
        vstd::arithmetic::div_mod::lemma_div_pos_is_pos(num as int, den as int);
    }
    (num / den) as u8
}

/// Converts an HSV value to an 8-bit RGB pixel: the standard sector
/// construction with `c = v*s`, `x = c*(1 - |(h/60 mod 2) - 1|)` and
/// `m = v - c`, each channel `(component + m) * 255` rounded toward zero.
pub fn hsv_to_rgb(h: Hsv) -> (out: Rgb)
    requires
        h.wf(),
    ensures
        (out.r as int, out.g as int, out.b as int) == rgb_chans_of_hsv(h),
{
    let hn: u64 = h.h_num as u64;
    let hd: u64 = h.h_den as u64;
    let dd: u64 = 60 * hd;
    let j: u64 = hn / (120 * hd);
    proof {
        vstd::arithmetic::div_mod::lemma_fundamental_div_mod(hn as int, 120 * hd);
        vstd::arithmetic::div_mod::lemma_mod_pos_bound(hn as int, 120 * hd);
    }
    let t: u64 = hn - 120 * hd * j;
    let fsc: u64 = if t <= dd {
        t
    } else {
        2 * dd - t
    };
    let k: u64 = hn / dd;
    proof {
        lemma_hsv_chan_bounds(h);
        assert((h.v_num as int) * (h.s_num as int) < 0x100000000 && (h.v_den as int) * (
        h.s_den as int) < 0x100000000 && (h.v_num as int) * ((h.s_den - h.s_num) as int)
            < 0x100000000) by (nonlinear_arith)
            requires
                0 <= h.v_num <= 65535,
                0 <= h.s_num <= h.s_den,
                1 <= h.v_den <= 65535,
                1 <= h.s_den <= 65535,
        ;
    }
    let cn: u64 = (h.v_num as u64) * (h.s_num as u64);
    let cmd: u64 = (h.v_den as u64) * (h.s_den as u64);
    let mn: u64 = (h.v_num as u64) * ((h.s_den - h.s_num) as u64);
    proof {
        assert((cn as int) * (fsc as int) < 0x40000000000000 && (cmd as int) * (dd as int)
            < 0x40000000000000) by (nonlinear_arith)
            requires
                0 <= cn < 0x100000000,
                0 <= cmd < 0x100000000,
                0 <= fsc <= dd,
                60 <= dd <= 60 * 65535,
        ;
    }
    let xn: u128 = (cn as u128) * (fsc as u128);
    let xd: u128 = (cmd as u128) * (dd as u128);
    proof {
        assert(fsc as int == hsv_fsc(h.h_num as int, h.h_den as int));
        assert(xn == x_num(h) && xd == x_den(h)) by (nonlinear_arith)
            requires
                xn == (cn as int) * (fsc as int),
                xd == (cmd as int) * (dd as int),
                cn == c_num(h),
                cmd == cm_den(h),
                fsc == hsv_fsc(h.h_num as int, h.h_den as int),
                dd == 60 * (h.h_den as int),
                x_num(h) == c_num(h) * hsv_fsc(h.h_num as int, h.h_den as int),
                x_den(h) == cm_den(h) * (60 * (h.h_den as int)),
        ;
    }
    let cc: u8 = chan255_exec(cn as u128, cmd as u128, mn, cmd);
    let xx: u8 = chan255_exec(xn, xd, mn, cmd);
    let zz: u8 = chan255_exec(0, 1, mn, cmd);
    if k == 0 {
        Rgb { r: cc, g: xx, b: zz }
    } else if k == 1 {
        Rgb { r: xx, g: cc, b: zz }
    } else if k == 2 {
        Rgb { r: zz, g: cc, b: xx }
    } else if k == 3 {
        Rgb { r: zz, g: xx, b: cc }
    } else if k == 4 {
        Rgb { r: xx, g: zz, b: cc }
    } else {
        Rgb { r: cc, g: zz, b: xx }
    }
}

/// Bounds needed to evaluate the three channels of a well-formed HSV
/// value exactly: every component stays below one, so each channel's
/// numerator is at most its denominator.
pub proof fn lemma_hsv_chan_bounds(h: Hsv)
    requires
        h.wf(),
    ensures
        0 <= c_num(h) < 0x100000000,
        1 <= cm_den(h) < 0x100000000,
        0 <= m_num(h) < 0x100000000,
        0 <= hsv_fsc(h.h_num as int, h.h_den as int) <= 60 * h.h_den,
        0 <= x_num(h) < 0x40000000000000,
        60 <= x_den(h) < 0x40000000000000,
        c_num(h) * cm_den(h) + m_num(h) * cm_den(h) <= cm_den(h) * cm_den(h),
        x_num(h) * cm_den(h) + m_num(h) * x_den(h) <= x_den(h) * cm_den(h),
        0 * cm_den(h) + m_num(h) * 1 <= 1 * cm_den(h),
{
    let hn = h.h_num as int;
    let hd = h.h_den as int;
    let dd = 60 * hd;
    let j = hn / (120 * hd);
    let t = hn - 120 * hd * j;
    vstd::arithmetic::div_mod::lemma_fundamental_div_mod(hn, 120 * hd);
    vstd::arithmetic::div_mod::lemma_mod_pos_bound(hn, 120 * hd);
    assert(0 <= t < 120 * hd);
    assert(0 <= hsv_fsc(hn, hd) <= dd);
    let vn = h.v_num as int;
    let vd = h.v_den as int;
    let sn = h.s_num as int;
    let sd = h.s_den as int;
    assert(c_num(h) + m_num(h) == vn * sd) by (nonlinear_arith)
        requires
            c_num(h) == vn * sn,
            m_num(h) == vn * (sd - sn),
    ;
    assert(vn * sd <= vd * sd) by (nonlinear_arith)
        requires
            vn <= vd,
            sd >= 1,
            vn >= 0,
    ;
    assert(c_num(h) < 0x100000000 && cm_den(h) < 0x100000000 && m_num(h) < 0x100000000)
        by (nonlinear_arith)
        requires
            c_num(h) == vn * sn,
            cm_den(h) == vd * sd,
            m_num(h) == vn * (sd - sn),
            0 <= vn <= 65535,
            0 <= sn <= sd,
            1 <= vd <= 65535,
            1 <= sd <= 65535,
    ;
    assert(cm_den(h) >= 1) by (nonlinear_arith)
        requires
            cm_den(h) == vd * sd,
            vd >= 1,
            sd >= 1,
    ;
    assert(x_num(h) <= c_num(h) * dd && 0 <= x_num(h)) by (nonlinear_arith)
        requires
            x_num(h) == c_num(h) * hsv_fsc(hn, hd),
            0 <= hsv_fsc(hn, hd) <= dd,
            c_num(h) >= 0,
    ;
    assert(c_num(h) * dd < 0x100000000 * (60 * 65536) && cm_den(h) * dd < 0x100000000 * (60
        * 65536) && cm_den(h) * dd >= 60) by (nonlinear_arith)
        requires
            0 <= c_num(h) < 0x100000000,
            1 <= cm_den(h) < 0x100000000,
            60 <= dd <= 60 * 65535,
    ;
    assert(x_den(h) == cm_den(h) * dd);
    // component plus match stays at most one, for each component
    assert((c_num(h) + m_num(h)) * cm_den(h) <= cm_den(h) * cm_den(h) && c_num(h) * cm_den(h)
        + m_num(h) * cm_den(h) == (c_num(h) + m_num(h)) * cm_den(h)) by (nonlinear_arith)
        requires
            c_num(h) + m_num(h) <= cm_den(h),
            cm_den(h) >= 1,
            c_num(h) >= 0,
            m_num(h) >= 0,
    ;
    assert(x_num(h) * cm_den(h) <= (cm_den(h) - m_num(h)) * x_den(h)) by (nonlinear_arith)
        requires
            x_num(h) == c_num(h) * hsv_fsc(hn, hd),
            x_den(h) == cm_den(h) * dd,
            0 <= hsv_fsc(hn, hd) <= dd,
            c_num(h) <= cm_den(h) - m_num(h),
            c_num(h) >= 0,
            m_num(h) >= 0,
            cm_den(h) >= 1,
    ;
    assert((cm_den(h) - m_num(h)) * x_den(h) + m_num(h) * x_den(h) == cm_den(h) * x_den(h))
        by (nonlinear_arith);
    assert(cm_den(h) * x_den(h) == x_den(h) * cm_den(h)) by (nonlinear_arith);
    assert(m_num(h) <= cm_den(h));
}

} // verus!

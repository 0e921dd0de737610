//! Otsu's automatic threshold: the split of the intensity histogram
//! that maximizes the between-class variance.
//!
//! The variance of a split is the rational
//! `w_b * w_f * (mean_b - mean_f)^2`; comparisons are done exactly in
//! integers (through a 256-bit intermediate product), so the returned
//! threshold is provably the first maximizer.

use vstd::prelude::*;
use crate::histogram::{
    count_eq,
    wsum,
    msum,
    lemma_count_eq_bound,
    lemma_wsum_mono,
    lemma_msum_bound,
    build_histogram,
};
use crate::raster::{Image, image_eq, luma_pixels, clone_image};
use crate::point_ops::{thresholded_image, apply_manual_threshold};
use vstd::arithmetic::div_mod::lemma_fundamental_div_mod;
use vstd::arithmetic::div_mod::lemma_mod_pos_bound;
use vstd::arithmetic::div_mod::lemma_multiply_divide_lt;

verus! {

/// The 256-bin histogram of a grayscale pixel sequence.
pub open spec fn hist_of(s: Seq<u8>) -> Seq<u64> {
    Seq::new(256, |k: int| count_eq(s, k, s.len() as int) as u64)
}

/// The squared numerator of the between-class variance of the split at
/// `t`: `(w_f * sum_b - w_b * sum_f)^2`, rewritten over the total
/// weight `n` and the total first moment.
pub open spec fn var_num(h: Seq<u64>, n: int, t: int) -> int {
    let nb = n * msum(h, t) - wsum(h, t) * msum(h, 255);
    nb * nb
}

/// The denominator of the between-class variance: `w_b * w_f`.
pub open spec fn var_den(h: Seq<u64>, n: int, t: int) -> int {
    wsum(h, t) * (n - wsum(h, t))
}

/// A split is valid when both classes hold at least one pixel.
pub open spec fn valid_split(h: Seq<u64>, n: int, t: int) -> bool {
    0 < wsum(h, t) < n
}

/// The variance at `t1` is at most the variance at `t2`, compared by
/// cross-multiplication of the exact rationals.
pub open spec fn var_le(h: Seq<u64>, n: int, t1: int, t2: int) -> bool {
    var_num(h, n, t1) * var_den(h, n, t2) <= var_num(h, n, t2) * var_den(h, n, t1)
}

/// The variance at `t1` is strictly below the variance at `t2`.
pub open spec fn var_lt(h: Seq<u64>, n: int, t1: int, t2: int) -> bool {
    var_num(h, n, t1) * var_den(h, n, t2) < var_num(h, n, t2) * var_den(h, n, t1)
}

/// What the threshold search returns: if some valid split has positive
/// variance, `t` is the first valid split of maximal variance; with no
/// such split (a uniform or empty histogram) the search degenerates to
/// zero.
pub open spec fn is_otsu_threshold(h: Seq<u64>, n: int, t: int) -> bool {
    if exists|j: int| 0 <= j < 256 && #[trigger] valid_split(h, n, j) && var_num(h, n, j) > 0 {
        &&& 0 <= t < 256
        &&& valid_split(h, n, t)
        &&& var_num(h, n, t) > 0
        &&& forall|j: int| 0 <= j < 256 && #[trigger] valid_split(h, n, j) ==> var_le(h, n, j, t)
        &&& forall|j: int| 0 <= j < t && #[trigger] valid_split(h, n, j) ==> var_lt(h, n, j, t)
    } else {
        t == 0
    }
}

/// The 256-bit product of two 128-bit values, split at the 64-bit
/// limbs, as a high and a low half.
#[verifier::rlimit(60)]
fn mul_wide(x: u128, y: u128) -> (r: (u128, u128))
    ensures
        (r.0 as int) * 0x100000000000000000000000000000000 + (r.1 as int) == x * y,
{
    let b: u128 = 0x10000000000000000;
    proof {
        lemma_fundamental_div_mod(x as int, b as int);
        lemma_fundamental_div_mod(y as int, b as int);
        lemma_mod_pos_bound(x as int, b as int);
        lemma_mod_pos_bound(y as int, b as int);
        assert((x as int) < (b as int) * (b as int) && (y as int) < (b as int) * (b as int))
            by (nonlinear_arith)
            requires
                b == 0x10000000000000000,
                x <= 0xffffffffffffffffffffffffffffffff,
                y <= 0xffffffffffffffffffffffffffffffff,
        ;
        lemma_multiply_divide_lt(x as int, b as int, b as int);
        lemma_multiply_divide_lt(y as int, b as int, b as int);
    }
    let x1: u128 = x / b;
    let x0: u128 = x % b;
    let y1: u128 = y / b;
    let y0: u128 = y % b;
    proof {
        assert(x0 * y0 < b * b && x0 * y1 < b * b && x1 * y0 < b * b && x1 * y1 <= (b - 1) * (
        b - 1)) by (nonlinear_arith)
            requires
                0 <= x0 < b,
                0 <= x1 < b,
                0 <= y0 < b,
                0 <= y1 < b,
        ;
        assert(b * b == 0x100000000000000000000000000000000) by (nonlinear_arith)
            requires
                b == 0x10000000000000000,
        ;
    }
    let p00: u128 = x0 * y0;
    let p01: u128 = x0 * y1;
    let p10: u128 = x1 * y0;
    let p11: u128 = x1 * y1;
    proof {
        lemma_fundamental_div_mod(p00 as int, b as int);
        lemma_mod_pos_bound(p00 as int, b as int);
        lemma_fundamental_div_mod(p01 as int, b as int);
        lemma_mod_pos_bound(p01 as int, b as int);
        lemma_fundamental_div_mod(p10 as int, b as int);
        lemma_mod_pos_bound(p10 as int, b as int);
        lemma_multiply_divide_lt(p00 as int, b as int, b as int);
        lemma_multiply_divide_lt(p01 as int, b as int, b as int);
        lemma_multiply_divide_lt(p10 as int, b as int, b as int);
    }
    let p00h: u128 = p00 / b;
    let p00l: u128 = p00 % b;
    let ml: u128 = (p01 % b) + (p10 % b) + p00h;
    proof {
        lemma_fundamental_div_mod(ml as int, b as int);
        lemma_mod_pos_bound(ml as int, b as int);
        assert(ml < 3 * b);
        vstd::arithmetic::div_mod::lemma_div_is_ordered(ml as int, 3 * (b as int) - 3, b as int);
        vstd::arithmetic::div_mod::lemma_fundamental_div_mod_converse(
            3 * (b as int) - 3,
            b as int,
            2,
            (b as int) - 3,
        );
        // the quotient halves of the cross products stay two below the limb
        assert(p01 <= ((b as int) - 1) * ((b as int) - 1)) by (nonlinear_arith)
            requires
                0 <= x0 < b,
                0 <= y1 < b,
                p01 == x0 * y1,
        ;
        assert(p10 <= ((b as int) - 1) * ((b as int) - 1)) by (nonlinear_arith)
            requires
                0 <= x1 < b,
                0 <= y0 < b,
                p10 == x1 * y0,
        ;
        vstd::arithmetic::div_mod::lemma_div_is_ordered(
            p01 as int,
            ((b as int) - 1) * ((b as int) - 1),
            b as int,
        );
        vstd::arithmetic::div_mod::lemma_div_is_ordered(
            p10 as int,
            ((b as int) - 1) * ((b as int) - 1),
            b as int,
        );
        assert(((b as int) - 1) * ((b as int) - 1) == ((b as int) - 2) * (b as int) + 1)
            by (nonlinear_arith);
        vstd::arithmetic::div_mod::lemma_fundamental_div_mod_converse(
            ((b as int) - 1) * ((b as int) - 1),
            b as int,
            (b as int) - 2,
            1,
        );
    }
    let mh: u128 = (p01 / b) + (p10 / b) + (ml / b);
    let lo: u128 = p00l + (ml % b) * b;
    proof {
        assert(p00l + ((ml as int) % (b as int)) * (b as int) < b * b) by (nonlinear_arith)
            requires
                0 <= p00l < b,
                0 <= (ml as int) % (b as int) < b,
                b == 0x10000000000000000,
        ;
        assert(p11 + mh <= (b - 1) * (b - 1) + 2 * (b as int) - 2);
        assert((b as int - 1) * (b as int - 1) + 2 * (b as int) - 2 < b * b) by (nonlinear_arith)
            requires
                b == 0x10000000000000000,
        ;
    }
    let hi: u128 = p11 + mh;
    proof {
        let bi = b as int;
        let p01q = (p01 as int) / bi;
        let p01r = (p01 as int) % bi;
        let p10q = (p10 as int) / bi;
        let p10r = (p10 as int) % bi;
        let mlq = (ml as int) / bi;
        let mlr = (ml as int) % bi;
        assert(x * y == p11 * (bi * bi) + (p01 + p10) * bi + p00) by (nonlinear_arith)
            requires
                x == x1 * bi + x0,
                y == y1 * bi + y0,
                p00 == x0 * y0,
                p01 == x0 * y1,
                p10 == x1 * y0,
                p11 == x1 * y1,
        ;
        assert((p01 + p10) * bi + p00 == (p01q + p10q) * (bi * bi) + (p01r + p10r + (
        p00h as int)) * bi + p00l) by (nonlinear_arith)
            requires
                p01 == p01q * bi + p01r,
                p10 == p10q * bi + p10r,
                p00 == (p00h as int) * bi + (p00l as int),
        ;
        assert((ml as int) * bi == mlq * (bi * bi) + mlr * bi) by (nonlinear_arith)
            requires
                ml == mlq * bi + mlr,
        ;
        assert((p11 + p01q + p10q + mlq) * (bi * bi) == (p11 as int) * (bi * bi) + p01q * (bi
            * bi) + p10q * (bi * bi) + mlq * (bi * bi)) by (nonlinear_arith);
        assert((p01r + p10r + (p00h as int)) * bi == (ml as int) * bi) by (nonlinear_arith)
            requires
                ml == p01r + p10r + (p00h as int),
        ;
        assert((hi as int) * (bi * bi) + (lo as int) == x * y);
        assert(bi * bi == 0x100000000000000000000000000000000) by (nonlinear_arith)
            requires
                bi == 0x10000000000000000,
        ;
    }
    (hi, lo)
}

/// Whether `a * b2` strictly exceeds `c * d`, decided exactly.
fn prod_gt(a: u128, b2: u128, c: u128, d: u128) -> (r: bool)
    ensures
        r <==> a * b2 > c * d,
{
    let (h1, l1) = mul_wide(a, b2);
    let (h2, l2) = mul_wide(c, d);
    if h1 > h2 {
        true
    } else if h1 == h2 {
        l1 > l2
    } else {
        false
    }
}

/// From `a1/b1 <= a2/b2` and `a2/b2 < a3/b3` (cross-multiplied,
/// positive denominators), `a1/b1 < a3/b3`.
proof fn lemma_frac_trans(a1: int, b1: int, a2: int, b2: int, a3: int, b3: int)
    requires
        b1 > 0,
        b2 > 0,
        b3 > 0,
        a1 * b2 <= a2 * b1,
        a2 * b3 < a3 * b2,
    ensures
        a1 * b3 < a3 * b1,
{
    assert((a1 * b2) * b3 <= (a2 * b1) * b3) by (nonlinear_arith)
        requires
            a1 * b2 <= a2 * b1,
            b3 > 0,
    ;
    assert((a2 * b3) * b1 < (a3 * b2) * b1) by (nonlinear_arith)
        requires
            a2 * b3 < a3 * b2,
            b1 > 0,
    ;
    assert((a1 * b2) * b3 == (a1 * b3) * b2 && (a2 * b1) * b3 == (a2 * b3) * b1 && (a3 * b2)
        * b1 == (a3 * b1) * b2) by (nonlinear_arith);
    assert(a1 * b3 < a3 * b1) by (nonlinear_arith)
        requires
            (a1 * b3) * b2 < (a3 * b1) * b2,
            b2 > 0,
    ;
}

/// Finds the Otsu threshold of a 256-bin histogram whose bins sum to
/// `total`: the first split maximizing the between-class variance,
/// computed in one pass with exact integer comparisons. With no valid
/// positive-variance split (an empty or single-level histogram) the
/// result degenerates to zero. The pixel-count bound keeps every
/// intermediate product exact in 128 bits.
pub fn find_otsu_threshold(hist: &Vec<u64>, total: u64) -> (res: u8)
    requires
        hist@.len() == 256,
        total as int == wsum(hist@, 255),
        total <= 0x1000000,
    ensures
        is_otsu_threshold(hist@, total as int, res as int),
{
    let ghost h = hist@;
    let ghost n = total as int;
    let mut sum: u64 = 0;
    let mut i: usize = 0;
    while i < 256
        invariant
            i <= 256,
            h == hist@,
            n == total as int,
            hist@.len() == 256,
            total <= 0x1000000,
            total as int == wsum(h, 255),
            sum as int == msum(h, i as int - 1),
        decreases 256 - i,
    {
        proof {
            lemma_msum_bound(h, i as int);
            lemma_msum_bound(h, i as int - 1);
            lemma_wsum_mono(h, i as int, 255);
            lemma_wsum_mono(h, i as int - 1, i as int);
        }
        sum = sum + (i as u64) * hist[i];
        i = i + 1;
    }
    let mut w_b: u64 = 0;
    let mut sum_b: u64 = 0;
    let mut best_t: usize = 0;
    let mut best_nsq: u128 = 0;
    let mut best_den: u128 = 1;
    let mut t: usize = 0;
    let mut done: bool = false;
    while t < 256 && !done
        invariant
            t <= 256,
            best_t < 256,
            h == hist@,
            n == total as int,
            hist@.len() == 256,
            total <= 0x1000000,
            total as int == wsum(h, 255),
            sum as int == msum(h, 255),
            w_b as int == wsum(h, t as int - 1),
            sum_b as int == msum(h, t as int - 1),
            best_den >= 1,
            best_nsq == 0 ==> best_t == 0 && best_den == 1 && (forall|j: int|
                0 <= j < t && #[trigger] valid_split(h, n, j) ==> var_num(h, n, j) == 0),
            best_nsq > 0 ==> (best_t as int) < t && valid_split(h, n, best_t as int) && (
            best_nsq as int) == var_num(h, n, best_t as int) && (best_den as int) == var_den(
                h,
                n,
                best_t as int,
            ),
            forall|j: int|
                0 <= j < t && #[trigger] valid_split(h, n, j) ==> var_num(h, n, j) * (
                best_den as int) <= (best_nsq as int) * var_den(h, n, j),
            forall|j: int|
                0 <= j < best_t && #[trigger] valid_split(h, n, j) ==> var_num(h, n, j) * (
                best_den as int) < (best_nsq as int) * var_den(h, n, j),
            done ==> (forall|j: int| t <= j < 256 ==> !valid_split(h, n, j)),
        decreases 256 - t,
    {
        proof {
            lemma_wsum_mono(h, t as int, 255);
            lemma_wsum_mono(h, t as int - 1, t as int);
            lemma_msum_bound(h, t as int);
            lemma_msum_bound(h, t as int - 1);
            assert((t as int) * (hist@[t as int] as int) <= 255 * 0x1000000)
                by (nonlinear_arith)
                requires
                    0 <= t < 256,
                    0 <= hist@[t as int] <= 0x1000000,
            ;
        }
        let ht: u64 = hist[t];
        w_b = w_b + ht;
        sum_b = sum_b + (t as u64) * ht;
        if w_b == 0 {
            t = t + 1;
        } else {
            let w_f: u64 = total - w_b;
            if w_f == 0 {
                proof {
                    assert forall|j: int| t <= j < 256 implies !valid_split(h, n, j) by {
                        lemma_wsum_mono(h, t as int, j);
                    }
                }
                done = true;
                t = t + 1;
            } else {
                proof {
                    lemma_msum_bound(h, 255);
                    lemma_msum_bound(h, t as int);
                    lemma_wsum_mono(h, t as int, 255);
                    assert((total as int) * (sum_b as int) <= 0x1000000 * (255 * 0x1000000)
                        && (w_b as int) * (sum as int) <= 0x1000000 * (255 * 0x1000000) && (
                    w_b as int) * (w_f as int) <= 0x1000000 * 0x1000000) by (nonlinear_arith)
                        requires
                            0 <= total <= 0x1000000,
                            0 <= sum_b <= 255 * 0x1000000,
                            0 <= w_b <= 0x1000000,
                            0 <= sum <= 255 * 0x1000000,
                            0 <= w_f <= 0x1000000,
                    ;
                }
                let a_: u64 = total * sum_b;
                let b_: u64 = w_b * sum;
                let diff: u64 = if a_ >= b_ {
                    a_ - b_
                } else {
                    b_ - a_
                };
                proof {
                    assert((diff as int) * (diff as int) < 0x100000000000000000000000000000000)
                        by (nonlinear_arith)
                        requires
                            0 <= diff <= 0xff000000000000,
                    ;
                }
                let nsq: u128 = (diff as u128) * (diff as u128);
                let den: u64 = w_b * w_f;
                proof {
                    assert((nsq as int) == var_num(h, n, t as int)) by (nonlinear_arith)
                        requires
                            nsq == (diff as int) * (diff as int),
                            diff == a_ - b_ || diff == b_ - a_,
                            a_ == n * msum(h, t as int),
                            b_ == wsum(h, t as int) * msum(h, 255),
                            var_num(h, n, t as int) == (n * msum(h, t as int) - wsum(h, t as int)
                                * msum(h, 255)) * (n * msum(h, t as int) - wsum(h, t as int)
                                * msum(h, 255)),
                    ;
                    assert((den as int) == var_den(h, n, t as int));
                    assert((den as int) >= 1) by (nonlinear_arith)
                        requires
                            den == (w_b as int) * (w_f as int),
                            w_b >= 1,
                            w_f >= 1,
                    ;
                }
                if prod_gt(nsq, best_den, best_nsq, den as u128) {
                    proof {
                        assert(nsq > 0) by (nonlinear_arith)
                            requires
                                nsq * (best_den as int) > (best_nsq as int) * (den as int),
                                best_den >= 1,
                                best_nsq >= 0,
                                den >= 1,
                                nsq >= 0,
                        ;
                        assert forall|j: int|
                            0 <= j < t && #[trigger] valid_split(h, n, j) implies var_num(h, n, j)
                            * (den as int) < (nsq as int) * var_den(h, n, j) by {
                            assert(var_den(h, n, j) >= 1) by (nonlinear_arith)
                                requires
                                    var_den(h, n, j) == wsum(h, j) * (n - wsum(h, j)),
                                    0 < wsum(h, j) < n,
                            ;
                            lemma_frac_trans(
                                var_num(h, n, j),
                                var_den(h, n, j),
                                best_nsq as int,
                                best_den as int,
                                nsq as int,
                                den as int,
                            );
                        }
                    }
                    best_nsq = nsq;
                    best_den = den as u128;
                    best_t = t;
                    t = t + 1;
                } else {
                    proof {
                        if best_nsq == 0 {
                            assert(nsq * 1 <= 0 * (den as int));
                            assert(var_num(h, n, t as int) == 0);
                        }
                    }
                    t = t + 1;
                }
            }
        }
    }
    proof {
        if best_nsq > 0 {
            assert(valid_split(h, n, best_t as int) && var_num(h, n, best_t as int) > 0);
            assert forall|j: int|
                0 <= j < 256 && #[trigger] valid_split(h, n, j) implies var_le(
                h,
                n,
                j,
                best_t as int,
            ) by {
                if j < t {
                } else {
                    assert(!valid_split(h, n, j));
                }
            }
            assert forall|j: int|
                0 <= j < best_t && #[trigger] valid_split(h, n, j) implies var_lt(
                h,
                n,
                j,
                best_t as int,
            ) by {
            }
        } else {
            assert forall|j: int|
                0 <= j < 256 && #[trigger] valid_split(h, n, j) implies var_num(h, n, j)
                == 0 by {
                if j >= t {
                    assert(!valid_split(h, n, j));
                }
            }
        }
    }
    best_t as u8
}

/// Applies Otsu's automatic threshold: builds the intensity histogram,
/// finds the first split of maximal between-class variance and
/// binarizes at it. A zero-pixel image is returned unchanged. The
/// pixel-count bound keeps the variance comparisons exact.
pub fn apply_otsu_threshold(image: &Image) -> (out: Image)
    requires
        image.wf(),
        image.pixel_count() <= 0x1000000,
    ensures
        image.pixel_count() == 0 ==> image_eq(*image, out),
        image.pixel_count() > 0 ==> exists|t: int|
            #[trigger] is_otsu_threshold(hist_of(image.luma_seq()), image.pixel_count(), t)
                && thresholded_image(*image, t, out),
{
    let gray = luma_pixels(image);
    if gray.len() == 0 {
        clone_image(image)
    } else {
        let hist = build_histogram(&gray);
        proof {
            assert forall|k: int| 0 <= k < 256 implies hist@[k] == hist_of(gray@)[k] by {
                lemma_count_eq_bound(gray@, k, gray@.len() as int);
            }
            assert(hist@ =~= hist_of(gray@));
        }
        let total: u64 = gray.len() as u64;
        let t = find_otsu_threshold(&hist, total);
        apply_manual_threshold(image, t)
    }
}

} // verus!

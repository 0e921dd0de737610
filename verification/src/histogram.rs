//! The 256-bin intensity histogram and its cumulative sums.

use vstd::prelude::*;

verus! {

/// How many of the first `n` intensities equal `k`.
pub open spec fn count_eq(s: Seq<u8>, k: int, n: int) -> int
    decreases n,
{
    if n <= 0 {
        0
    } else {
        count_eq(s, k, n - 1) + if s[n - 1] as int == k {
            1int
        } else {
            0int
        }
    }
}

/// The cumulative class weight: the sum of the bins up to and
/// including `t` (the background weight of a split at `t`).
pub open spec fn wsum(h: Seq<u64>, t: int) -> int
    decreases t + 1,
{
    if t < 0 {
        0
    } else {
        wsum(h, t - 1) + h[t] as int
    }
}

/// The cumulative first moment: the sum of `i * h[i]` for `i` up to
/// and including `t`.
pub open spec fn msum(h: Seq<u64>, t: int) -> int
    decreases t + 1,
{
    if t < 0 {
        0
    } else {
        msum(h, t - 1) + t * h[t] as int
    }
}

/// A count over a prefix is between zero and the prefix length.
pub proof fn lemma_count_eq_bound(s: Seq<u8>, k: int, n: int)
    requires
        0 <= n <= s.len(),
    ensures
        0 <= count_eq(s, k, n) <= n,
    decreases n,
{
    if n > 0 {
        lemma_count_eq_bound(s, k, n - 1);
    }
}

/// Every cumulative weight is nonnegative.
pub proof fn lemma_wsum_nonneg(h: Seq<u64>, t: int)
    ensures
        0 <= wsum(h, t),
    decreases t + 1,
{
    if t >= 0 {
        lemma_wsum_nonneg(h, t - 1);
    }
}

/// Cumulative weights grow with the split point.
pub proof fn lemma_wsum_mono(h: Seq<u64>, t1: int, t2: int)
    requires
        t1 <= t2,
    ensures
        0 <= wsum(h, t1) <= wsum(h, t2),
    decreases t2 - t1,
{
    lemma_wsum_nonneg(h, t1);
    if t1 < t2 {
        lemma_wsum_mono(h, t1, t2 - 1);
    }
}

/// Bumping one bin raises every cumulative weight from that bin on by
/// exactly one, and the first moment by the bin index.
pub proof fn lemma_sums_update(h: Seq<u64>, h2: Seq<u64>, j: int, t: int)
    requires
        0 <= j < h.len(),
        h2 == h.update(j, ((h[j] + 1) as u64)),
        h[j] + 1 <= u64::MAX,
        t < h.len(),
    ensures
        wsum(h2, t) == wsum(h, t) + if j <= t {
            1int
        } else {
            0int
        },
        msum(h2, t) == msum(h, t) + if j <= t {
            j
        } else {
            0int
        },
    decreases t + 1,
{
    if t >= 0 {
        lemma_sums_update(h, h2, j, t - 1);
        if t == j {
            assert(h2[t] as int == h[t] as int + 1);
            assert(t * (h2[t] as int) == t * (h[t] as int) + t) by (nonlinear_arith)
                requires
                    h2[t] as int == h[t] as int + 1,
            ;
        } else {
            assert(h2[t] == h[t]);
        }
    }
}

/// The first moment is at most 255 times the weight when every bin
/// index involved is at most 255.
pub proof fn lemma_msum_bound(h: Seq<u64>, t: int)
    requires
        t <= 255,
    ensures
        0 <= msum(h, t) <= 255 * wsum(h, t),
    decreases t + 1,
{
    if t >= 0 {
        lemma_msum_bound(h, t - 1);
        lemma_wsum_mono(h, t - 1, t - 1);
        assert(t * h[t] as int <= 255 * h[t] as int) by (nonlinear_arith)
            requires
                0 <= t <= 255,
                h[t] as int >= 0,
        ;
        assert(t * h[t] as int >= 0) by (nonlinear_arith)
            requires
                t >= 0,
                h[t] as int >= 0,
        ;
    }
}

/// Builds the 256-bin intensity histogram of a grayscale pixel buffer
/// in one linear pass: bin `k` counts the pixels with intensity `k`,
/// and the bins sum to the pixel count.
pub fn build_histogram(gray: &Vec<u8>) -> (hist: Vec<u64>)
    ensures
        hist@.len() == 256,
        forall|k: int| 0 <= k < 256 ==> hist@[k] as int == count_eq(gray@, k, gray@.len() as int),
        wsum(hist@, 255) == gray@.len(),
{
    let mut hist: Vec<u64> = Vec::new();
    let mut z: usize = 0;
    while z < 256
        invariant
            z <= 256,
            hist@.len() == z,
            forall|k: int| 0 <= k < z ==> hist@[k] == 0,
        decreases 256 - z,
    {
        hist.push(0);
        z = z + 1;
    }
    proof {
        lemma_zero_sums(hist@, 255);
        assert forall|k: int| 0 <= k < 256 implies hist@[k] as int == count_eq(gray@, k, 0) by {
        }
    }
    let mut i: usize = 0;
    while i < gray.len()
        invariant
            i <= gray.len(),
            hist@.len() == 256,
            forall|k: int| 0 <= k < 256 ==> hist@[k] as int == count_eq(gray@, k, i as int),
            wsum(hist@, 255) == i,
        decreases gray.len() - i,
    {
        let p: usize = gray[i] as usize;
        proof {
            lemma_count_eq_bound(gray@, p as int, i as int);
            assert(hist@[p as int] + 1 <= u64::MAX);
        }
        let ghost old_hist = hist@;
        let bumped: u64 = hist[p] + 1;
        hist[p] = bumped;
        i = i + 1;
        proof {
            lemma_sums_update(old_hist, hist@, p as int, 255);
            assert forall|k: int| 0 <= k < 256 implies hist@[k] as int == count_eq(
                gray@,
                k,
                i as int,
            ) by {
                assert(count_eq(gray@, k, i as int) == count_eq(gray@, k, i - 1) + if gray@[i
                    - 1] as int == k {
                    1int
                } else {
                    0int
                });
            }
        }
    }
    hist
}

/// Every cumulative weight of the all-zero histogram is zero.
proof fn lemma_zero_sums(h: Seq<u64>, t: int)
    requires
        t < h.len(),
        forall|k: int| 0 <= k < h.len() ==> h[k] == 0,
    ensures
        wsum(h, t) == 0,
    decreases t + 1,
{
    if t >= 0 {
        lemma_zero_sums(h, t - 1);
    }
}

} // verus!

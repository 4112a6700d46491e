//! The hue histogram: 361 counters, one per integer degree in `0..=360`.
//!
//! A pixel is counted in the bucket of its hue rounded to the nearest
//! integer degree (halves up); bucket 360 is the dedicated terminal bucket
//! for hues that round up to the inclusive boundary. The histogram's
//! invariant is conservation: the sum of all bucket counts equals the
//! number of pixels counted.

use crate::pixel::{bucket_of, lemma_hue_range, rgb_to_hsv, hue_bucket, Pixel};
use vstd::prelude::*;

verus! {

/// Number of buckets: one per integer degree of hue, `0..=360` inclusive.
pub const BUCKETS: usize = 361;

/// Largest pixel count the statistics accept; keeps every intermediate
/// product of the variance computation within 128 bits.
pub const MAX_PIXELS: u64 = 0x1_0000_0000;

/// Sum of the entries of a sequence of counts.
pub open spec fn sum_seq(s: Seq<int>) -> int
    decreases s.len(),
{
    if s.len() == 0 {
        0
    } else {
        sum_seq(s.drop_last()) + s.last()
    }
}

/// Every entry is nonnegative.
pub open spec fn nonneg(s: Seq<int>) -> bool {
    forall|i: int| 0 <= i < s.len() ==> s[i] >= 0
}

/// The all-zero histogram.
pub open spec fn empty_hist() -> Seq<int> {
    Seq::new(BUCKETS as nat, |i: int| 0int)
}

/// `h` with one more count in bucket `b`.
pub open spec fn bump(h: Seq<int>, b: int) -> Seq<int> {
    h.update(b, h[b] + 1)
}

/// The hue histogram of a pixel stream: one count per pixel, in the bucket
/// of the pixel's rounded hue.
pub open spec fn hist_of(ps: Seq<Pixel>) -> Seq<int>
    decreases ps.len(),
{
    if ps.len() == 0 {
        empty_hist()
    } else {
        bump(hist_of(ps.drop_last()), bucket_of(ps.last()))
    }
}

proof fn lemma_sum_zeros(n: nat)
    ensures
        sum_seq(Seq::new(n, |i: int| 0int)) == 0,
    decreases n,
{
    if n > 0 {
        lemma_sum_zeros((n - 1) as nat);
        assert(Seq::new(n, |i: int| 0int).drop_last() =~= Seq::new((n - 1) as nat, |i: int| 0int));
    }
}

/// The total of a nonnegative sequence is nonnegative.
proof fn lemma_sum_nonneg(s: Seq<int>)
    requires
        nonneg(s),
    ensures
        sum_seq(s) >= 0,
    decreases s.len(),
{
    if s.len() > 0 {
        lemma_sum_nonneg(s.drop_last());
    }
}

/// Every entry of a nonnegative sequence is bounded by the total.
proof fn lemma_elem_le_sum(s: Seq<int>, i: int)
    requires
        nonneg(s),
        0 <= i < s.len(),
    ensures
        s[i] <= sum_seq(s),
    decreases s.len(),
{
    if i == s.len() - 1 {
        lemma_sum_nonneg(s.drop_last());
    } else {
        lemma_elem_le_sum(s.drop_last(), i);
    }
}

/// Bumping one bucket raises the total by exactly one.
proof fn lemma_sum_bump(s: Seq<int>, b: int)
    requires
        0 <= b < s.len(),
    ensures
        sum_seq(bump(s, b)) == sum_seq(s) + 1,
    decreases s.len(),
{
    if b == s.len() - 1 {
        assert(bump(s, b).drop_last() =~= s.drop_last());
    } else {
        assert(bump(s, b).drop_last() =~= bump(s.drop_last(), b));
        lemma_sum_bump(s.drop_last(), b);
    }
}

/// Histogram conservation: for any pixel stream the bucket counts of its
/// hue histogram add up to exactly the stream's length. The histogram also
/// always has all 361 buckets, each with a nonnegative count.
pub proof fn lemma_histogram_conservation(ps: Seq<Pixel>)
    ensures
        hist_of(ps).len() == BUCKETS,
        nonneg(hist_of(ps)),
        sum_seq(hist_of(ps)) == ps.len(),
    decreases ps.len(),
{
    if ps.len() == 0 {
        lemma_sum_zeros(BUCKETS as nat);
    } else {
        lemma_histogram_conservation(ps.drop_last());
        lemma_hue_range(ps.last());
        lemma_sum_bump(hist_of(ps.drop_last()), bucket_of(ps.last()));
    }
}

/// Cumulative count of `h` up to and including bucket `b`.
pub open spec fn cum(h: Seq<int>, b: int) -> int {
    sum_seq(h.take(b + 1))
}

/// Rank targeted by the `p`-th percentile over `n` observations:
/// `ceil(p * n / 100)`, but at least 1 (nearest-rank rule).
pub open spec fn rank_of(p: int, n: int) -> int {
    let r = (p * n + 99) / 100;
    if r < 1 {
        1
    } else {
        r
    }
}

/// `b` is the `p`-th percentile bucket of `h`: the first bucket whose
/// cumulative count reaches the target rank.
pub open spec fn is_percentile_bucket(h: Seq<int>, p: int, b: int) -> bool {
    &&& 0 <= b < h.len()
    &&& cum(h, b) >= rank_of(p, sum_seq(h))
    &&& forall|j: int| 0 <= j < b ==> cum(h, j) < rank_of(p, sum_seq(h))
}

/// `b` is the mode bucket of `h`: it carries a maximal count, and on ties
/// the lowest-numbered bucket wins.
pub open spec fn is_mode_bucket(h: Seq<int>, b: int) -> bool {
    &&& 0 <= b < h.len()
    &&& forall|j: int| 0 <= j < h.len() ==> h[j] <= h[b]
    &&& forall|j: int| 0 <= j < b ==> h[j] < h[b]
}

proof fn lemma_sum_take_succ(s: Seq<int>, i: int)
    requires
        0 <= i < s.len(),
    ensures
        sum_seq(s.take(i + 1)) == sum_seq(s.take(i)) + s[i],
{
    assert(s.take(i + 1).drop_last() =~= s.take(i));
}

proof fn lemma_sum_take_le(s: Seq<int>, i: int)
    requires
        nonneg(s),
        0 <= i <= s.len(),
    ensures
        sum_seq(s.take(i)) <= sum_seq(s),
    decreases s.len() - i,
{
    if i == s.len() {
        assert(s.take(i) =~= s);
    } else {
        lemma_sum_take_succ(s, i);
        lemma_sum_take_le(s, i + 1);
    }
}

/// At most one bucket satisfies the percentile characterization: the
/// percentile selection is a function of the histogram, so repeated runs
/// on the same input agree.
pub proof fn lemma_percentile_deterministic(h: Seq<int>, p: int, b1: int, b2: int)
    requires
        is_percentile_bucket(h, p, b1),
        is_percentile_bucket(h, p, b2),
    ensures
        b1 == b2,
{
}

/// At most one bucket satisfies the mode characterization: the mode
/// selection is a function of the histogram, so repeated runs on the same
/// input agree.
pub proof fn lemma_mode_deterministic(h: Seq<int>, b1: int, b2: int)
    requires
        is_mode_bucket(h, b1),
        is_mode_bucket(h, b2),
    ensures
        b1 == b2,
{
    if b1 < b2 {
        assert(h[b1] < h[b2]);
        assert(h[b2] <= h[b1]);
    } else if b2 < b1 {
        assert(h[b2] < h[b1]);
        assert(h[b1] <= h[b2]);
    }
}

/// `b` is the lowest occupied bucket of `h`.
pub open spec fn is_min_bucket(h: Seq<int>, b: int) -> bool {
    &&& 0 <= b < h.len()
    &&& h[b] > 0
    &&& forall|j: int| 0 <= j < b ==> h[j] == 0
}

/// `b` is the highest occupied bucket of `h`.
pub open spec fn is_max_bucket(h: Seq<int>, b: int) -> bool {
    &&& 0 <= b < h.len()
    &&& h[b] > 0
    &&& forall|j: int| b < j < h.len() ==> h[j] == 0
}

/// A sequence of all zeros sums to zero.
proof fn lemma_sum_all_zero(s: Seq<int>)
    requires
        forall|j: int| 0 <= j < s.len() ==> s[j] == 0,
    ensures
        sum_seq(s) == 0,
    decreases s.len(),
{
    if s.len() > 0 {
        lemma_sum_all_zero(s.drop_last());
    }
}

/// A hue histogram: a fixed arena of 361 counters plus the running total,
/// which the invariant ties to the sum of the counters.
pub struct HueHistogram {
    counts: Vec<u64>,
    total: u64,
}

impl View for HueHistogram {
    type V = Seq<int>;

    closed spec fn view(&self) -> Seq<int> {
        self.counts@.map_values(|c: u64| c as int)
    }
}

impl HueHistogram {
    /// Well-formedness: all 361 buckets are present and `total` is their sum.
    pub closed spec fn wf(self) -> bool {
        &&& self.counts@.len() == BUCKETS
        &&& self.total == sum_seq(self@)
    }

    /// The empty histogram: all buckets zero.
    pub fn new() -> (h: HueHistogram)
        ensures
            h.wf(),
            h@ == empty_hist(),
    {
        let mut counts: Vec<u64> = Vec::new();
        let mut i: usize = 0;
        while i < BUCKETS
            invariant
                i <= BUCKETS,
                counts@.len() == i,
                forall|j: int| 0 <= j < i ==> counts@[j] == 0u64,
            decreases BUCKETS - i,
        {
            counts.push(0);
            i += 1;
        }
        let h = HueHistogram { counts, total: 0 };
        proof {
            assert(h@ =~= empty_hist());
            lemma_sum_zeros(BUCKETS as nat);
        }
        h
    }

    /// Total number of pixels counted so far.
    pub fn total(&self) -> (n: u64)
        requires
            self.wf(),
        ensures
            n == sum_seq(self@),
    {
        self.total
    }

    /// Count one more pixel in `bucket`.
    pub fn increment(&mut self, bucket: u32)
        requires
            old(self).wf(),
            bucket < BUCKETS,
            sum_seq(old(self)@) < u64::MAX,
        ensures
            final(self).wf(),
            final(self)@ == bump(old(self)@, bucket as int),
    {
        proof {
            lemma_elem_le_sum(self@, bucket as int);
        }
        let c = self.counts[bucket as usize];
        self.counts.set(bucket as usize, c + 1);
        self.total = self.total + 1;
        proof {
            assert(self@ =~= bump(old(self)@, bucket as int));
            lemma_sum_bump(old(self)@, bucket as int);
        }
    }

    /// Build the hue histogram of a pixel stream: each pixel is converted
    /// to HSV and counted in the bucket of its rounded hue. Ensures the
    /// result is exactly the mathematical histogram of the stream, so in
    /// particular (histogram conservation) its counts sum to the stream's
    /// length.
    pub fn from_pixels(pixels: &Vec<Pixel>) -> (h: HueHistogram)
        requires
            pixels@.len() < u64::MAX,
        ensures
            h.wf(),
            h@ == hist_of(pixels@),
    {
        let mut h = HueHistogram::new();
        proof {
            lemma_histogram_conservation(pixels@.take(0));
            assert(pixels@.take(0) =~= Seq::<Pixel>::empty());
            assert(h@ =~= hist_of(pixels@.take(0)));
        }
        let mut i: usize = 0;
        while i < pixels.len()
            invariant
                i <= pixels@.len(),
                pixels@.len() < u64::MAX,
                h.wf(),
                h@ == hist_of(pixels@.take(i as int)),
            decreases pixels@.len() - i,
        {
            let hsv = rgb_to_hsv(pixels[i]);
            let b = hue_bucket(&hsv);
            proof {
                lemma_histogram_conservation(pixels@.take(i as int));
                lemma_hue_range(pixels@[i as int]);
            }
            h.increment(b);
            proof {
                assert(pixels@.take(i + 1).drop_last() =~= pixels@.take(i as int));
                assert(pixels@.take(i + 1).last() == pixels@[i as int]);
                assert(h@ =~= hist_of(pixels@.take(i + 1)));
            }
            i += 1;
        }
        proof {
            assert(pixels@.take(pixels@.len() as int) =~= pixels@);
        }
        h
    }

    /// The mode bucket: the lowest-numbered bucket with a maximal count.
    pub fn mode(&self) -> (b: u32)
        requires
            self.wf(),
        ensures
            b <= 360,
            is_mode_bucket(self@, b as int),
    {
        let mut best: usize = 0;
        let mut i: usize = 1;
        while i < BUCKETS
            invariant
                self.wf(),
                1 <= i <= BUCKETS,
                best < i,
                forall|j: int| 0 <= j < i ==> self@[j] <= self@[best as int],
                forall|j: int| 0 <= j < best ==> self@[j] < self@[best as int],
            decreases BUCKETS - i,
        {
            if self.counts[i] > self.counts[best] {
                best = i;
            }
            i += 1;
        }
        best as u32
    }

    /// The `p`-th percentile bucket, by the nearest-rank rule: the first
    /// bucket whose cumulative count reaches `ceil(p * total / 100)`
    /// (at least 1).
    pub fn percentile(&self, p: u32) -> (b: u32)
        requires
            self.wf(),
            p <= 100,
            1 <= sum_seq(self@) <= MAX_PIXELS,
        ensures
            b <= 360,
            is_percentile_bucket(self@, p as int, b as int),
    {
        let n = self.total;
        proof {
            assert(n == sum_seq(self@));
            assert(n <= MAX_PIXELS);
            assert((p as int) * (n as int) <= 100 * (MAX_PIXELS as int)) by (nonlinear_arith)
                requires
                    p <= 100,
                    n <= MAX_PIXELS,
            ;
        }
        let raw = ((p as u64) * n + 99) / 100;
        let rank = if raw == 0 {
            1
        } else {
            raw
        };
        proof {
            assert(rank == rank_of(p as int, sum_seq(self@)));
            lemma_rank_le_total(p as int, n as int);
            assert(nonneg(self@));
        }
        let mut acc: u64 = 0;
        let mut i: usize = 0;
        while i < BUCKETS - 1
            invariant
                self.wf(),
                nonneg(self@),
                i < BUCKETS,
                1 <= rank <= sum_seq(self@) <= MAX_PIXELS,
                rank == rank_of(p as int, sum_seq(self@)),
                acc == sum_seq(self@.take(i as int)),
                acc < rank,
                forall|j: int| 0 <= j < i ==> cum(self@, j) < rank,
            decreases BUCKETS - i,
        {
            proof {
                lemma_sum_take_succ(self@, i as int);
                lemma_sum_take_le(self@, i + 1);
            }
            acc = acc + self.counts[i];
            if acc >= rank {
                return i as u32;
            }
            i += 1;
        }
        proof {
            lemma_sum_take_succ(self@, 360);
            lemma_sum_take_le(self@, 361);
            assert(self@.take(361) =~= self@);
            assert(cum(self@, 360) == sum_seq(self@));
        }
        360
    }

    /// The lowest recorded hue bucket (diagnostic).
    pub fn minimum(&self) -> (b: u32)
        requires
            self.wf(),
            1 <= sum_seq(self@),
        ensures
            b <= 360,
            is_min_bucket(self@, b as int),
    {
        let mut i: usize = 0;
        while i < BUCKETS
            invariant
                self.wf(),
                i <= BUCKETS,
                forall|j: int| 0 <= j < i ==> self@[j] == 0,
            decreases BUCKETS - i,
        {
            if self.counts[i] > 0 {
                return i as u32;
            }
            i += 1;
        }
        proof {
            lemma_sum_all_zero(self@);
            assert(false);
        }
        0
    }

    /// The highest recorded hue bucket (diagnostic).
    pub fn maximum(&self) -> (b: u32)
        requires
            self.wf(),
            1 <= sum_seq(self@),
        ensures
            b <= 360,
            is_max_bucket(self@, b as int),
    {
        let mut i: usize = BUCKETS;
        while i > 0
            invariant
                self.wf(),
                i <= BUCKETS,
                forall|j: int| i <= j < BUCKETS ==> self@[j] == 0,
            decreases i,
        {
            i -= 1;
            if self.counts[i] > 0 {
                return i as u32;
            }
        }
        proof {
            lemma_sum_all_zero(self@);
            assert(false);
        }
        0
    }

    /// Population standard deviation of the recorded hue distribution,
    /// rounded to the nearest integer degree with halves rounding up.
    pub fn stddev(&self) -> (r: u64)
        requires
            self.wf(),
            1 <= sum_seq(self@) <= MAX_PIXELS,
        ensures
            r == stddev_of(self@),
            r <= 360,
    {
        proof {
            assert(nonneg(self@));
        }
        let mut acc0: u64 = 0;
        let mut acc1: u64 = 0;
        let mut acc2: u64 = 0;
        let mut i: usize = 0;
        while i < BUCKETS
            invariant
                self.wf(),
                nonneg(self@),
                sum_seq(self@) <= MAX_PIXELS,
                i <= BUCKETS,
                acc0 == sum_seq(self@.take(i as int)),
                acc1 == s1_of(self@.take(i as int)),
                acc2 == s2_of(self@.take(i as int)),
                acc0 <= sum_seq(self@),
                acc1 <= 360 * acc0,
                acc2 <= 129600 * acc0,
            decreases BUCKETS - i,
        {
            let c = self.counts[i];
            proof {
                lemma_elem_le_sum(self@, i as int);
                lemma_sum_take_succ(self@, i as int);
                lemma_s1_take_succ(self@, i as int);
                lemma_sum_take_le(self@, i + 1);
                assert((i as int) * (c as int) <= 360 * (c as int)) by (nonlinear_arith)
                    requires
                        0 <= i <= 360,
                        c >= 0,
                ;
                assert((i as int) * (i as int) <= 129600) by (nonlinear_arith)
                    requires
                        0 <= i <= 360,
                ;
                assert((i as int) * (i as int) * (c as int) <= 129600 * (c as int))
                    by (nonlinear_arith)
                    requires
                        0 <= i <= 360,
                        c >= 0,
                ;
            }
            acc0 = acc0 + c;
            acc1 = acc1 + (i as u64) * c;
            acc2 = acc2 + (i as u64) * (i as u64) * c;
            i += 1;
        }
        proof {
            assert(self@.take(BUCKETS as int) =~= self@);
            lemma_disp_nonneg(self@);
            assert((acc0 as int) * (acc2 as int) <= 129600 * (MAX_PIXELS as int) * (
            MAX_PIXELS as int)) by (nonlinear_arith)
                requires
                    0 <= acc0 <= MAX_PIXELS,
                    0 <= acc2 <= 129600 * acc0,
            ;
        }
        let n128 = acc0 as u128;
        let d4: u128 = 4 * (n128 * (acc2 as u128) - (acc1 as u128) * (acc1 as u128));
        proof {
            assert(d4 == 4 * disp_of(self@));
        }
        let root = isqrt_exec(d4);
        proof {
            lemma_stddev_in_range(self@);
        }
        (root + acc0) / (2 * acc0)
    }
}

/// The rounded standard deviation of a 361-bucket histogram is at most
/// 360 degrees: no distribution over `0..=360` spreads wider than the
/// full bucket range.
proof fn lemma_stddev_in_range(h: Seq<int>)
    requires
        nonneg(h),
        h.len() <= 361,
        1 <= sum_seq(h),
    ensures
        0 <= stddev_of(h) <= 360,
{
    let n = sum_seq(h);
    let s1v = s1_of(h);
    let s2v = s2_of(h);
    lemma_s2_bound(h);
    lemma_disp_nonneg(h);
    assert(s1v * s1v >= 0) by (nonlinear_arith);
    assert(n * s2v <= (129600 * n) * n) by (nonlinear_arith)
        requires
            s2v <= 129600 * n,
            n >= 0,
    ;
    assert(4 * disp_of(h) <= (720 * n) * (720 * n)) by (nonlinear_arith)
        requires
            n * s2v <= (129600 * n) * n,
            s1v * s1v >= 0,
            disp_of(h) == n * s2v - s1v * s1v,
    ;
    lemma_isqrt(4 * disp_of(h));
    let root = isqrt(4 * disp_of(h));
    assert(root <= 720 * n) by (nonlinear_arith)
        requires
            root >= 0,
            n >= 1,
            root * root <= (720 * n) * (720 * n),
    ;
    assert(root + n < (2 * n) * 361);
    vstd::arithmetic::div_mod::lemma_multiply_divide_lt(root + n, 2 * n, 361);
    vstd::arithmetic::div_mod::lemma_div_pos_is_pos(root + n, 2 * n);
}

/// Executable integer square root by bisection, for inputs below `2^84`.
fn isqrt_exec(x: u128) -> (r: u64)
    requires
        (x as int) < 0x40000000000 * 0x40000000000,
    ensures
        r == isqrt(x as int),
        r < 0x40000000000,
{
    let mut lo: u128 = 0;
    let mut hi: u128 = 0x40000000000;
    while lo + 1 < hi
        invariant
            lo < hi <= 0x40000000000,
            (lo as int) * (lo as int) <= x as int,
            (x as int) < (hi as int) * (hi as int),
        decreases hi - lo,
    {
        let mid = lo + (hi - lo) / 2;
        proof {
            assert(lo < mid < hi);
            assert((mid as int) * (mid as int) < 0x40000000000 * 0x40000000000)
                by (nonlinear_arith)
                requires
                    0 <= mid < 0x40000000000u128,
            ;
        }
        if mid * mid <= x {
            lo = mid;
        } else {
            hi = mid;
        }
    }
    proof {
        lemma_isqrt_unique(x as int, lo as int);
    }
    lo as u64
}

/// First moment of `h`: sum over all buckets of index times count.
pub open spec fn s1_of(h: Seq<int>) -> int
    decreases h.len(),
{
    if h.len() == 0 {
        0
    } else {
        s1_of(h.drop_last()) + (h.len() - 1) * h.last()
    }
}

/// Second moment of `h`: sum over all buckets of squared index times count.
pub open spec fn s2_of(h: Seq<int>) -> int
    decreases h.len(),
{
    if h.len() == 0 {
        0
    } else {
        s2_of(h.drop_last()) + (h.len() - 1) * (h.len() - 1) * h.last()
    }
}

/// `n * n` times the population variance of `h`, where `n` is the total
/// count: `n * s2 - s1 * s1`. Nonnegative for every histogram.
pub open spec fn disp_of(h: Seq<int>) -> int {
    sum_seq(h) * s2_of(h) - s1_of(h) * s1_of(h)
}

/// Integer square root: the largest `r` with `r * r <= x` (0 for
/// nonpositive `x`).
pub open spec fn isqrt(x: int) -> int
    decreases x,
{
    if x <= 0 {
        0
    } else {
        let r = isqrt(x - 1);
        if (r + 1) * (r + 1) <= x {
            r + 1
        } else {
            r
        }
    }
}

/// Population standard deviation of `h`, rounded to the nearest integer
/// with halves rounding up: `round(sqrt(disp) / n)` computed exactly as
/// `(isqrt(4 * disp) + n) / (2 * n)`.
pub open spec fn stddev_of(h: Seq<int>) -> int {
    (isqrt(4 * disp_of(h)) + sum_seq(h)) / (2 * sum_seq(h))
}

pub proof fn lemma_isqrt(x: int)
    requires
        0 <= x,
    ensures
        0 <= isqrt(x),
        isqrt(x) * isqrt(x) <= x,
        x < (isqrt(x) + 1) * (isqrt(x) + 1),
    decreases x,
{
    if x > 0 {
        lemma_isqrt(x - 1);
        let r = isqrt(x - 1);
        if (r + 1) * (r + 1) <= x {
            assert(x == (r + 1) * (r + 1));
            assert(x < (r + 2) * (r + 2)) by (nonlinear_arith)
                requires
                    r >= 0,
                    x == (r + 1) * (r + 1),
            ;
        }
    }
}

pub proof fn lemma_isqrt_unique(x: int, r: int)
    requires
        0 <= x,
        0 <= r,
        r * r <= x,
        x < (r + 1) * (r + 1),
    ensures
        r == isqrt(x),
{
    lemma_isqrt(x);
    let s = isqrt(x);
    if r < s {
        assert((r + 1) * (r + 1) <= s * s) by (nonlinear_arith)
            requires
                0 <= r < s,
        ;
    } else if s < r {
        assert((s + 1) * (s + 1) <= r * r) by (nonlinear_arith)
            requires
                0 <= s < r,
        ;
    }
}

/// For every `k >= 0`: `2 * s1 * k <= n * k * k + s2`. This is the
/// bucket-wise fact `sum of count * (k - index)^2 >= 0`.
proof fn lemma_moment_bound(h: Seq<int>, k: int)
    requires
        nonneg(h),
        0 <= k,
    ensures
        2 * s1_of(h) * k <= sum_seq(h) * k * k + s2_of(h),
    decreases h.len(),
{
    if h.len() > 0 {
        let d = h.drop_last();
        let m = h.len() - 1;
        let c = h.last();
        assert(nonneg(d));
        lemma_moment_bound(d, k);
        assert(2 * (s1_of(d) + m * c) * k <= (sum_seq(d) + c) * k * k + s2_of(d) + m * m * c)
            by (nonlinear_arith)
            requires
                2 * s1_of(d) * k <= sum_seq(d) * k * k + s2_of(d),
                c >= 0,
        ;
    }
}

/// The dispersion of a histogram is nonnegative: `s1 * s1 <= n * s2`
/// (a Cauchy-Schwarz bound), so the population variance is well defined.
#[verifier::rlimit(60)]
pub proof fn lemma_disp_nonneg(h: Seq<int>)
    requires
        nonneg(h),
    ensures
        disp_of(h) >= 0,
    decreases h.len(),
{
    if h.len() > 0 {
        let d = h.drop_last();
        let m = h.len() - 1;
        let c = h.last();
        assert(nonneg(d));
        lemma_disp_nonneg(d);
        lemma_moment_bound(d, m);
        let s1d = s1_of(d);
        let nd = sum_seq(d);
        let s2d = s2_of(d);
        assert(2 * s1d * (m * c) <= nd * (m * m * c) + s2d * c) by (nonlinear_arith)
            requires
                2 * s1d * m <= nd * m * m + s2d,
                c >= 0,
        ;
        assert((s1d + m * c) * (s1d + m * c) == s1d * s1d + 2 * s1d * (m * c) + (m * m * c)
            * c) by (nonlinear_arith);
        assert((nd + c) * (s2d + m * m * c) == nd * s2d + nd * (m * m * c) + s2d * c + (m * m
            * c) * c) by (nonlinear_arith);
        assert((s1d + m * c) * (s1d + m * c) <= (nd + c) * (s2d + m * m * c));
    }
}

proof fn lemma_s1_take_succ(s: Seq<int>, i: int)
    requires
        0 <= i < s.len(),
    ensures
        s1_of(s.take(i + 1)) == s1_of(s.take(i)) + i * s[i],
        s2_of(s.take(i + 1)) == s2_of(s.take(i)) + i * i * s[i],
{
    assert(s.take(i + 1).drop_last() =~= s.take(i));
}

/// With bucket indices at most 360, the second moment is at most
/// `129600` times the total count.
proof fn lemma_s2_bound(h: Seq<int>)
    requires
        nonneg(h),
        h.len() <= 361,
    ensures
        s2_of(h) <= 129600 * sum_seq(h),
    decreases h.len(),
{
    if h.len() > 0 {
        let d = h.drop_last();
        let m = h.len() - 1;
        let c = h.last();
        assert(nonneg(d));
        lemma_s2_bound(d);
        assert(m * m * c <= 129600 * c) by (nonlinear_arith)
            requires
                0 <= m <= 360,
                c >= 0,
        ;
    }
}

/// The percentile rank never exceeds the number of observations.
proof fn lemma_rank_le_total(p: int, n: int)
    requires
        0 <= p <= 100,
        1 <= n,
    ensures
        1 <= rank_of(p, n) <= n,
{
    assert(p * n <= 100 * n) by (nonlinear_arith)
        requires
            0 <= p <= 100,
            1 <= n,
    ;
    vstd::arithmetic::div_mod::lemma_div_is_ordered(p * n + 99, 100 * n + 99, 100);
    assert((100 * n + 99) / 100 == n) by {
        vstd::arithmetic::div_mod::lemma_div_multiples_vanish_fancy(n, 99, 100);
    }
}

} // verus!

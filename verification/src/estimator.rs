//! Dominant-hue estimation.
//!
//! Both strategies build the same hue histogram and differ only in how
//! they reduce it to a dominant `Color` (a hue plus a tolerance, both in
//! integer degrees):
//!
//! - the mode strategy returns the lowest-numbered bucket with a maximal
//!   count, with a caller-fixed tolerance;
//! - the statistical strategy returns a configurable percentile of the hue
//!   distribution (nearest-rank rule) as the hue and the population
//!   standard deviation (rounded to the nearest degree, halves up) as the
//!   tolerance.
//!
//! An empty pixel stream has no histogram statistics and is rejected.

use crate::histogram::{
    hist_of, is_mode_bucket, is_percentile_bucket, lemma_histogram_conservation,
    lemma_mode_deterministic, lemma_percentile_deterministic, stddev_of, sum_seq, HueHistogram,
    MAX_PIXELS,
};
use crate::pixel::Pixel;
use vstd::prelude::*;

verus! {

/// How the dominant hue and its tolerance are derived from the histogram.
#[derive(Clone, Copy, Debug, PartialEq, Eq, Structural)]
pub enum Strategy {
    /// Mode of the histogram as the hue, with this fixed tolerance in
    /// degrees.
    Mode { tolerance: u32 },
    /// This percentile of the distribution as the hue, the population
    /// standard deviation as the tolerance.
    Statistical { percentile: u32 },
}

/// Estimation failure: the pixel stream was empty, so no histogram
/// statistics are defined.
#[derive(Clone, Copy, Debug, PartialEq, Eq, Structural)]
pub enum EstimationError {
    EmptyStream,
}

/// A dominant color: a representative hue and a tolerance band around it,
/// both in integer degrees.
#[derive(Clone, Copy, Debug, PartialEq, Eq, Structural)]
pub struct Color {
    pub hue: u32,
    pub tolerance: u32,
}

impl Color {
    /// Well-formedness: the hue is a histogram bucket.
    pub open spec fn wf(self) -> bool {
        self.hue <= 360
    }

    /// The hue `num / den` (in degrees) lies within `tolerance` of `hue`,
    /// by plain absolute difference — hue is deliberately not treated as
    /// circular, so hues on either side of the 0/360 boundary are far
    /// apart.
    pub open spec fn contains_spec(self, num: int, den: int) -> bool {
        if num >= self.hue * den {
            num - self.hue * den <= self.tolerance * den
        } else {
            self.hue * den - num <= self.tolerance * den
        }
    }

    /// Decide `contains_spec` for an exact rational hue.
    pub fn contains(&self, hue_num: u32, hue_den: u32) -> (r: bool)
        requires
            1 <= hue_den,
        ensures
            r == self.contains_spec(hue_num as int, hue_den as int),
    {
        proof {
            assert((self.hue as int) * (hue_den as int) < 0x10000000000000000
                && (self.tolerance as int) * (hue_den as int) < 0x10000000000000000)
                by (nonlinear_arith)
                requires
                    self.hue < 0x100000000,
                    self.tolerance < 0x100000000,
                    hue_den < 0x100000000,
            ;
        }
        let num = hue_num as u64;
        let center = (self.hue as u64) * (hue_den as u64);
        let band = (self.tolerance as u64) * (hue_den as u64);
        if num >= center {
            num - center <= band
        } else {
            center - num <= band
        }
    }

    /// Statistical reduction of a histogram: the `percentile`-th
    /// percentile bucket as the hue, the rounded population standard
    /// deviation as the tolerance.
    pub fn from_histogram(hist: &HueHistogram, percentile: u32) -> (c: Color)
        requires
            hist.wf(),
            percentile <= 100,
            1 <= sum_seq(hist@) <= MAX_PIXELS,
        ensures
            c.wf(),
            is_percentile_bucket(hist@, percentile as int, c.hue as int),
            c.tolerance == stddev_of(hist@),
    {
        let hue = hist.percentile(percentile);
        let dev = hist.stddev();
        Color { hue, tolerance: dev as u32 }
    }
}

/// What the estimator promises of a returned dominant color, for each
/// strategy, over the mathematical histogram of the pixel stream.
pub open spec fn dominant_ok(ps: Seq<Pixel>, strategy: Strategy, c: Color) -> bool {
    match strategy {
        Strategy::Mode { tolerance } => {
            &&& c.tolerance == tolerance
            &&& is_mode_bucket(hist_of(ps), c.hue as int)
        },
        Strategy::Statistical { percentile } => {
            &&& is_percentile_bucket(hist_of(ps), percentile as int, c.hue as int)
            &&& c.tolerance == stddev_of(hist_of(ps))
        },
    }
}

/// Estimate the dominant hue of a pixel stream.
///
/// Returns `Err(EmptyStream)` exactly when the stream is empty; otherwise
/// the returned color is the unique one the chosen strategy derives from
/// the stream's hue histogram.
pub fn dominant_color(pixels: &Vec<Pixel>, strategy: Strategy) -> (r: Result<
    Color,
    EstimationError,
>)
    requires
        pixels@.len() < u64::MAX,
        strategy matches Strategy::Statistical { percentile } ==> percentile <= 100
            && pixels@.len() <= MAX_PIXELS,
    ensures
        r is Ok <==> pixels@.len() > 0,
        r is Err ==> r == Err::<Color, EstimationError>(EstimationError::EmptyStream),
        r matches Ok(c) ==> c.wf() && dominant_ok(pixels@, strategy, c),
{
    if pixels.len() == 0 {
        return Err(EstimationError::EmptyStream);
    }
    proof {
        lemma_histogram_conservation(pixels@);
    }
    let hist = HueHistogram::from_pixels(pixels);
    match strategy {
        Strategy::Mode { tolerance } => Ok(Color { hue: hist.mode(), tolerance }),
        Strategy::Statistical { percentile } => Ok(Color::from_histogram(&hist, percentile)),
    }
}

/// The estimator is deterministic: any two colors that satisfy the
/// estimator's contract for the same pixel stream and the same strategy
/// are equal, so running the estimation twice on identical input buffers
/// yields identical results.
pub proof fn lemma_estimator_deterministic(
    ps: Seq<Pixel>,
    strategy: Strategy,
    c1: Color,
    c2: Color,
)
    requires
        dominant_ok(ps, strategy, c1),
        dominant_ok(ps, strategy, c2),
    ensures
        c1 == c2,
{
    match strategy {
        Strategy::Mode { tolerance } => {
            lemma_mode_deterministic(hist_of(ps), c1.hue as int, c2.hue as int);
        },
        Strategy::Statistical { percentile } => {
            lemma_percentile_deterministic(
                hist_of(ps),
                percentile as int,
                c1.hue as int,
                c2.hue as int,
            );
        },
    }
}

} // verus!

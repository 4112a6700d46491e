//! Pixels and exact RGB-to-HSV conversion.
//!
//! A pixel's hue, saturation and value are kept as exact rationals over its
//! 8-bit channel values, never as floating point:
//!
//! - hue in degrees is `hue_num / hue_den` with `0 <= hue < 360`;
//! - saturation is `sat_num / sat_den` in `[0, 1]`;
//! - value is `val_num / 255` in `[0, 1]`.
//!
//! Gray pixels (zero chroma) get hue 0 and saturation 0; ties between equal
//! maximal channels are broken in the order red, green, blue. The histogram
//! bucket of a pixel is its hue rounded to the nearest integer degree with
//! halves rounding up, so hues at `359.5` degrees and above land in the
//! dedicated terminal bucket 360.

use vstd::arithmetic::div_mod::{lemma_div_pos_is_pos, lemma_multiply_divide_lt};
use vstd::prelude::*;

verus! {

/// One image pixel: 8-bit red, green, blue and alpha channels.
#[derive(Clone, Copy, Debug, PartialEq, Eq, Structural)]
pub struct Pixel {
    pub r: u8,
    pub g: u8,
    pub b: u8,
    pub a: u8,
}

/// The HSV triple of a pixel, as exact rationals (see the module comment).
#[derive(Clone, Copy, Debug, PartialEq, Eq, Structural)]
pub struct Hsv {
    pub hue_num: u32,
    pub hue_den: u32,
    pub sat_num: u32,
    pub sat_den: u32,
    pub val_num: u32,
    pub val_den: u32,
}

pub open spec fn max3(r: int, g: int, b: int) -> int {
    if r >= g && r >= b {
        r
    } else if g >= b {
        g
    } else {
        b
    }
}

pub open spec fn min3(r: int, g: int, b: int) -> int {
    if r <= g && r <= b {
        r
    } else if g <= b {
        g
    } else {
        b
    }
}

/// Largest channel of `p`.
pub open spec fn pix_max(p: Pixel) -> int {
    max3(p.r as int, p.g as int, p.b as int)
}

/// Smallest channel of `p`.
pub open spec fn pix_min(p: Pixel) -> int {
    min3(p.r as int, p.g as int, p.b as int)
}

/// Chroma of `p`: the spread between its largest and smallest channel.
pub open spec fn chroma(p: Pixel) -> int {
    pix_max(p) - pix_min(p)
}

/// Denominator of the exact hue of `p`.
pub open spec fn hue_den_of(p: Pixel) -> int {
    if chroma(p) == 0 {
        1
    } else {
        chroma(p)
    }
}

/// Numerator of the exact hue of `p`: the hue in degrees is
/// `hue_num_of(p) / hue_den_of(p)`. Gray pixels get hue 0; ties between
/// equal maximal channels go to red, then green, then blue.
pub open spec fn hue_num_of(p: Pixel) -> int {
    let r = p.r as int;
    let g = p.g as int;
    let b = p.b as int;
    let d = chroma(p);
    if d == 0 {
        0
    } else if r == pix_max(p) {
        if g >= b {
            60 * (g - b)
        } else {
            360 * d - 60 * (b - g)
        }
    } else if g == pix_max(p) {
        120 * d + 60 * (b - r)
    } else {
        240 * d + 60 * (r - g)
    }
}

/// Denominator of the saturation of `p`.
pub open spec fn sat_den_of(p: Pixel) -> int {
    if pix_max(p) == 0 {
        1
    } else {
        pix_max(p)
    }
}

/// Numerator of the saturation of `p`: saturation is chroma over the
/// largest channel, and 0 for black.
pub open spec fn sat_num_of(p: Pixel) -> int {
    if pix_max(p) == 0 {
        0
    } else {
        chroma(p)
    }
}

/// Numerator of the value of `p`; the denominator is always 255.
pub open spec fn val_num_of(p: Pixel) -> int {
    pix_max(p)
}

/// Histogram bucket of `p`: its hue rounded to the nearest integer degree,
/// halves up. Always in `0..=360`.
pub open spec fn bucket_of(p: Pixel) -> int {
    (2 * hue_num_of(p) + hue_den_of(p)) / (2 * hue_den_of(p))
}

impl Hsv {
    /// Well-formedness: the three rationals are in range.
    pub open spec fn wf(self) -> bool {
        &&& 1 <= self.hue_den <= 255
        &&& self.hue_num < 360 * self.hue_den
        &&& 1 <= self.sat_den <= 255
        &&& self.sat_num <= self.sat_den
        &&& self.val_den == 255
        &&& self.val_num <= 255
    }

    /// `self` is exactly the HSV triple of `p`.
    pub open spec fn is_hsv_of(self, p: Pixel) -> bool {
        &&& self.hue_num == hue_num_of(p)
        &&& self.hue_den == hue_den_of(p)
        &&& self.sat_num == sat_num_of(p)
        &&& self.sat_den == sat_den_of(p)
        &&& self.val_num == val_num_of(p)
        &&& self.val_den == 255
    }

    /// Histogram bucket of this triple's hue: nearest integer degree,
    /// halves up.
    pub open spec fn bucket(self) -> int {
        (2 * self.hue_num + self.hue_den) / (2 * self.hue_den)
    }
}

/// Exact conversion from 8-bit RGB to rational HSV. The alpha channel is
/// ignored: transparent pixels convert like opaque ones.
pub fn rgb_to_hsv(p: Pixel) -> (h: Hsv)
    ensures
        h.is_hsv_of(p),
        h.wf(),
{
    let r = p.r as u32;
    let g = p.g as u32;
    let b = p.b as u32;
    let mx = if r >= g && r >= b {
        r
    } else if g >= b {
        g
    } else {
        b
    };
    let mn = if r <= g && r <= b {
        r
    } else if g <= b {
        g
    } else {
        b
    };
    let d = mx - mn;
    let (hue_num, hue_den): (u32, u32) = if d == 0 {
        (0, 1)
    } else if r == mx {
        if g >= b {
            (60 * (g - b), d)
        } else {
            (360 * d - 60 * (b - g), d)
        }
    } else if g == mx {
        if b >= r {
            (120 * d + 60 * (b - r), d)
        } else {
            (120 * d - 60 * (r - b), d)
        }
    } else {
        if r >= g {
            (240 * d + 60 * (r - g), d)
        } else {
            (240 * d - 60 * (g - r), d)
        }
    };
    let (sat_num, sat_den): (u32, u32) = if mx == 0 {
        (0, 1)
    } else {
        (d, mx)
    };
    Hsv { hue_num, hue_den, sat_num, sat_den, val_num: mx, val_den: 255 }
}

/// The histogram bucket of a well-formed HSV triple, as an executable
/// function: nearest integer degree, halves up, always at most 360.
pub fn hue_bucket(h: &Hsv) -> (b: u32)
    requires
        h.wf(),
    ensures
        b == h.bucket(),
        b <= 360,
{
    let b = (2 * h.hue_num + h.hue_den) / (2 * h.hue_den);
    proof {
        lemma_bucket_in_range(h.hue_num as int, h.hue_den as int);
    }
    b
}

/// Rounding a hue below 360 degrees to the nearest integer degree stays
/// within `0..=360`.
proof fn lemma_bucket_in_range(num: int, den: int)
    requires
        0 <= num,
        1 <= den,
        num < 360 * den,
    ensures
        0 <= (2 * num + den) / (2 * den) <= 360,
{
    lemma_div_pos_is_pos(2 * num + den, 2 * den);
    assert(2 * num + den < (2 * den) * 361) by (nonlinear_arith)
        requires
            num < 360 * den,
            1 <= den,
    ;
    lemma_multiply_divide_lt(2 * num + den, 2 * den, 361);
}

/// The computed hue of every pixel lies in `[0, 360)` degrees, and its
/// histogram bucket in `0..=360`: rounding can reach the inclusive
/// boundary, which goes to the dedicated terminal bucket 360.
pub proof fn lemma_hue_range(p: Pixel)
    ensures
        1 <= hue_den_of(p) <= 255,
        0 <= hue_num_of(p) < 360 * hue_den_of(p),
        0 <= bucket_of(p) <= 360,
{
    lemma_bucket_in_range(hue_num_of(p), hue_den_of(p));
}

} // verus!

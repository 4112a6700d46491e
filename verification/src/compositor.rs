//! The compositor: hue-conditioned pixel substitution.
//!
//! For each position independently, the source pixel is replaced by the
//! background pixel at the same position exactly when the key condition
//! holds: the source hue lies within the dominant color's tolerance band
//! (plain absolute difference, not circular distance), its saturation is
//! at least 0.4 and its value at least 0.1. All other pixels pass through
//! unchanged. The saturation and value thresholds are fixed policy
//! constants that keep near-gray and near-black pixels from being keyed,
//! since hue is noisy there.

use crate::estimator::Color;
use crate::pixel::{
    hue_den_of, hue_num_of, rgb_to_hsv, sat_den_of, sat_num_of, val_num_of, Pixel,
};
use vstd::prelude::*;

verus! {

/// Saturation threshold numerator: pixels are keyed only at saturation
/// `>= SAT_THRESHOLD_NUM / SAT_THRESHOLD_DEN` (0.4).
pub const SAT_THRESHOLD_NUM: u32 = 2;

/// Saturation threshold denominator.
pub const SAT_THRESHOLD_DEN: u32 = 5;

/// Value threshold numerator: pixels are keyed only at value
/// `>= VAL_THRESHOLD_NUM / VAL_THRESHOLD_DEN` (0.1).
pub const VAL_THRESHOLD_NUM: u32 = 1;

/// Value threshold denominator.
pub const VAL_THRESHOLD_DEN: u32 = 10;

/// The saturation of `p` is at least 0.4.
pub open spec fn sat_clears(p: Pixel) -> bool {
    SAT_THRESHOLD_DEN * sat_num_of(p) >= SAT_THRESHOLD_NUM * sat_den_of(p)
}

/// The value of `p` is at least 0.1.
pub open spec fn val_clears(p: Pixel) -> bool {
    VAL_THRESHOLD_DEN * val_num_of(p) >= VAL_THRESHOLD_NUM * 255
}

/// The key condition: hue within the tolerance band, saturation and value
/// over their thresholds.
pub open spec fn key_match(c: Color, p: Pixel) -> bool {
    &&& c.contains_spec(hue_num_of(p), hue_den_of(p))
    &&& sat_clears(p)
    &&& val_clears(p)
}

/// The output pixel for source `s` and background `b` under key `c`.
pub open spec fn composite_pixel(c: Color, s: Pixel, b: Pixel) -> Pixel {
    if key_match(c, s) {
        b
    } else {
        s
    }
}

/// The full output image: position-wise composition of two equally long
/// pixel streams in raster order.
pub open spec fn merge_spec(src: Seq<Pixel>, c: Color, bg: Seq<Pixel>) -> Seq<Pixel> {
    Seq::new(src.len(), |i: int| composite_pixel(c, src[i], bg[i]))
}

/// Decide the key condition for one source pixel.
pub fn is_keyed(color: Color, p: Pixel) -> (r: bool)
    ensures
        r == key_match(color, p),
{
    let hsv = rgb_to_hsv(p);
    let hue_ok = color.contains(hsv.hue_num, hsv.hue_den);
    let sat_ok = SAT_THRESHOLD_DEN * hsv.sat_num >= SAT_THRESHOLD_NUM * hsv.sat_den;
    let val_ok = VAL_THRESHOLD_DEN * hsv.val_num >= VAL_THRESHOLD_NUM * 255;
    hue_ok && sat_ok && val_ok
}

/// Compose the source and background streams into `output`.
///
/// The two streams must already be pixel-for-pixel aligned: equal
/// dimensions are the caller's precondition (see `merge_checked` for the
/// checked entry point). Every position of the result is the background
/// pixel where the key condition holds and the unchanged source pixel
/// elsewhere.
pub fn merge(input: &Vec<Pixel>, color: Color, background: &Vec<Pixel>, output: &mut Vec<Pixel>)
    requires
        input@.len() == background@.len(),
    ensures
        final(output)@ == merge_spec(input@, color, background@),
{
    output.clear();
    let mut i: usize = 0;
    while i < input.len()
        invariant
            input@.len() == background@.len(),
            i <= input@.len(),
            output@.len() == i,
            forall|j: int|
                0 <= j < i ==> output@[j] == composite_pixel(color, input@[j], background@[j]),
        decreases input@.len() - i,
    {
        let s = input[i];
        let b = background[i];
        if is_keyed(color, s) {
            output.push(b);
        } else {
            output.push(s);
        }
        i += 1;
    }
    proof {
        assert(output@ =~= merge_spec(input@, color, background@));
    }
}

/// Compositing failure: the two streams differ in length.
#[derive(Clone, Copy, Debug, PartialEq, Eq, Structural)]
pub enum CompositeError {
    DimensionMismatch,
}

/// Checked composition: fails with `DimensionMismatch` exactly when the
/// background stream's length differs from the source stream's, and never
/// reads either stream out of bounds.
pub fn merge_checked(input: &Vec<Pixel>, color: Color, background: &Vec<Pixel>) -> (r: Result<
    Vec<Pixel>,
    CompositeError,
>)
    ensures
        r is Ok <==> input@.len() == background@.len(),
        r matches Ok(out) ==> out@ == merge_spec(input@, color, background@),
        r is Err ==> r == Err::<Vec<Pixel>, CompositeError>(CompositeError::DimensionMismatch),
{
    if input.len() != background.len() {
        return Err(CompositeError::DimensionMismatch);
    }
    let mut out: Vec<Pixel> = Vec::new();
    merge(input, color, background, &mut out);
    Ok(out)
}

/// Pass-through: a pixel whose saturation is below 0.4 or whose value is
/// below 0.1 is never replaced, regardless of how its hue relates to the
/// dominant color.
pub proof fn lemma_pass_through(c: Color, s: Pixel, b: Pixel)
    requires
        !sat_clears(s) || !val_clears(s),
    ensures
        composite_pixel(c, s, b) == s,
{
}

/// Exact-match collapse: with tolerance 0 the key condition accepts
/// exactly the pixels whose hue equals the dominant hue — saturation and
/// value permitting — and all others pass through unchanged.
pub proof fn lemma_exact_match_collapse(c: Color, s: Pixel, b: Pixel)
    requires
        c.tolerance == 0,
    ensures
        key_match(c, s) <==> (hue_num_of(s) == c.hue * hue_den_of(s) && sat_clears(s)
            && val_clears(s)),
        composite_pixel(c, s, b) == (if hue_num_of(s) == c.hue * hue_den_of(s) && sat_clears(s)
            && val_clears(s) {
            b
        } else {
            s
        }),
{
}

/// The compositor is a pure function: its output is determined by the
/// source pixels, the dominant color and the background pixels alone, so
/// running it twice on identical input buffers produces identical output
/// images.
pub proof fn lemma_compositor_deterministic(
    src1: Seq<Pixel>,
    c1: Color,
    bg1: Seq<Pixel>,
    src2: Seq<Pixel>,
    c2: Color,
    bg2: Seq<Pixel>,
)
    requires
        src1 == src2,
        c1 == c2,
        bg1 == bg2,
    ensures
        merge_spec(src1, c1, bg1) == merge_spec(src2, c2, bg2),
{
}

} // verus!

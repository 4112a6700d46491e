//! Tests for the compositor: keying, pass-through, and the end-to-end
//! chroma-key scenario.

use amigo::compositor::{is_keyed, merge, merge_checked, CompositeError};
use amigo::estimator::{dominant_color, Color, Strategy};
use amigo::pixel::Pixel;

fn px(r: u8, g: u8, b: u8) -> Pixel {
    Pixel { r, g, b, a: 255 }
}

fn green() -> Pixel {
    px(0, 255, 0)
}

fn red() -> Pixel {
    px(255, 0, 0)
}

fn blue() -> Pixel {
    px(0, 0, 255)
}

#[test]
fn end_to_end_green_screen_scenario() {
    // Source: 2x1 image [pure green, pure red]; background: [blue, blue].
    // Mode estimation with fixed tolerance 20 over the green pixel's
    // contribution gives hue 120; compositing replaces the green pixel
    // (hue 120, saturation 1, value 1) and leaves the red one (hue 0,
    // outside the band) unchanged.
    let key = dominant_color(&vec![green()], Strategy::Mode { tolerance: 20 }).unwrap();
    assert_eq!(key, Color { hue: 120, tolerance: 20 });

    let source = vec![green(), red()];
    let background = vec![blue(), blue()];
    let mut output: Vec<Pixel> = Vec::new();
    merge(&source, key, &background, &mut output);
    assert_eq!(output, vec![blue(), red()]);
}

#[test]
fn dark_and_gray_pixels_always_pass_through() {
    // A key band that covers every hue: only the saturation and value
    // thresholds can reject. Pure black (value 0) and pure gray
    // (saturation 0) are never replaced.
    let key = Color { hue: 0, tolerance: 360 };
    let black = px(0, 0, 0);
    let gray = px(128, 128, 128);
    assert!(!is_keyed(key, black));
    assert!(!is_keyed(key, gray));

    let source = vec![black, gray];
    let background = vec![blue(), blue()];
    let mut output: Vec<Pixel> = Vec::new();
    merge(&source, key, &background, &mut output);
    assert_eq!(output, vec![black, gray]);
}

#[test]
fn value_threshold_is_exactly_one_tenth() {
    // Value is max/255; the threshold is 0.1. max = 26 gives 0.10196...
    // (keyed), max = 25 gives 0.098... (passed through).
    let key = Color { hue: 0, tolerance: 0 };
    assert!(is_keyed(key, px(26, 0, 0)));
    assert!(!is_keyed(key, px(25, 0, 0)));
}

#[test]
fn saturation_threshold_is_exactly_two_fifths() {
    // Saturation is chroma/max; the threshold is 0.4. (255, 153, 153)
    // has saturation exactly 102/255 = 0.4 (keyed); (255, 154, 154) has
    // 101/255 (passed through).
    let key = Color { hue: 0, tolerance: 0 };
    assert!(is_keyed(key, px(255, 153, 153)));
    assert!(!is_keyed(key, px(255, 154, 154)));
}

#[test]
fn zero_tolerance_replaces_only_the_exact_hue() {
    // Estimation over a single-hue image gives tolerance 0; compositing
    // then replaces exactly the pixels with that precise hue. The pixel
    // (10, 255, 0) has hue 117.6..., close to but not exactly 120, and
    // survives.
    let key = dominant_color(&vec![green(), green()], Strategy::Statistical {
        percentile: 30,
    })
    .unwrap();
    assert_eq!(key, Color { hue: 120, tolerance: 0 });

    let near_green = px(10, 255, 0);
    let source = vec![green(), near_green, red()];
    let background = vec![blue(), blue(), blue()];
    let mut output: Vec<Pixel> = Vec::new();
    merge(&source, key, &background, &mut output);
    assert_eq!(output, vec![blue(), near_green, red()]);
}

#[test]
fn compositor_is_deterministic() {
    let key = Color { hue: 120, tolerance: 30 };
    let source = vec![green(), red(), px(0, 200, 40), px(9, 9, 9)];
    let background = vec![blue(), blue(), blue(), blue()];
    let mut first: Vec<Pixel> = Vec::new();
    merge(&source, key, &background, &mut first);
    let mut second: Vec<Pixel> = Vec::new();
    merge(&source, key, &background, &mut second);
    assert_eq!(first, second);
}

#[test]
fn shorter_background_is_a_dimension_mismatch() {
    let key = Color { hue: 120, tolerance: 20 };
    let source = vec![green(), red()];
    let background = vec![blue()];
    let r = merge_checked(&source, key, &background);
    assert_eq!(r, Err(CompositeError::DimensionMismatch));
}

#[test]
fn merge_checked_on_equal_lengths_matches_merge() {
    let key = Color { hue: 120, tolerance: 20 };
    let source = vec![green(), red(), px(0, 255, 30)];
    let background = vec![blue(), blue(), blue()];
    let checked = merge_checked(&source, key, &background).unwrap();
    let mut unchecked: Vec<Pixel> = Vec::new();
    merge(&source, key, &background, &mut unchecked);
    assert_eq!(checked, unchecked);
    assert_eq!(checked, vec![blue(), red(), blue()]);
}

#[test]
fn background_alpha_is_carried_through() {
    // A replaced pixel takes the background pixel wholesale, including
    // its alpha.
    let key = Color { hue: 120, tolerance: 20 };
    let translucent_blue = Pixel { r: 0, g: 0, b: 255, a: 17 };
    let source = vec![green()];
    let background = vec![translucent_blue];
    let mut output: Vec<Pixel> = Vec::new();
    merge(&source, key, &background, &mut output);
    assert_eq!(output, vec![translucent_blue]);
}

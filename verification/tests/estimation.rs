//! Tests for the hue histogram and the dominant-color estimation.

use amigo::estimator::{dominant_color, Color, EstimationError, Strategy};
use amigo::histogram::HueHistogram;
use amigo::pixel::Pixel;

fn px(r: u8, g: u8, b: u8) -> Pixel {
    Pixel { r, g, b, a: 255 }
}

fn green() -> Pixel {
    px(0, 255, 0)
}

fn red() -> Pixel {
    px(255, 0, 0)
}

fn blue() -> Pixel {
    px(0, 0, 255)
}

#[test]
fn histogram_counts_sum_to_stream_length() {
    let pixels = vec![green(), red(), blue(), green(), px(1, 2, 3), px(128, 128, 128)];
    let h = HueHistogram::from_pixels(&pixels);
    assert_eq!(h.total(), pixels.len() as u64);
}

#[test]
fn empty_histogram_has_total_zero() {
    let h = HueHistogram::new();
    assert_eq!(h.total(), 0);
}

#[test]
fn mode_picks_most_frequent_bucket() {
    let pixels = vec![green(), blue(), green(), green(), blue()];
    let h = HueHistogram::from_pixels(&pixels);
    assert_eq!(h.mode(), 120);
}

#[test]
fn mode_tie_break_goes_to_lowest_bucket() {
    // One red (bucket 0) and one green (bucket 120): on equal counts the
    // lowest-numbered bucket wins.
    let pixels = vec![green(), red()];
    let h = HueHistogram::from_pixels(&pixels);
    assert_eq!(h.mode(), 0);
}

#[test]
fn percentile_uses_nearest_rank() {
    // 3 greens (bucket 120) and 7 blues (bucket 240), N = 10.
    // 30th percentile: rank ceil(3.0) = 3 -> bucket 120.
    // 31st percentile: rank ceil(3.1) = 4 -> bucket 240.
    let mut pixels = Vec::new();
    for _ in 0..3 {
        pixels.push(green());
    }
    for _ in 0..7 {
        pixels.push(blue());
    }
    let h = HueHistogram::from_pixels(&pixels);
    assert_eq!(h.percentile(30), 120);
    assert_eq!(h.percentile(31), 240);
    assert_eq!(h.percentile(0), 120);
    assert_eq!(h.percentile(100), 240);
}

#[test]
fn stddev_exact_two_point_distribution() {
    // Bucket 0 (pure red) and bucket 10 ((255, 43, 0): hue 10.117...):
    // mean 5, population variance 25, standard deviation exactly 5.
    let pixels = vec![red(), px(255, 43, 0)];
    let h = HueHistogram::from_pixels(&pixels);
    assert_eq!(h.stddev(), 5);
}

#[test]
fn stddev_of_single_hue_is_zero() {
    let pixels = vec![green(), green(), green()];
    let h = HueHistogram::from_pixels(&pixels);
    assert_eq!(h.stddev(), 0);
}

#[test]
fn stddev_rounds_halves_up() {
    // Bucket 0 and bucket 1: population standard deviation 0.5, which
    // rounds up to 1. (255, 4, 0) has hue 60*4/255 = 0.94... -> bucket 1.
    let pixels = vec![red(), px(255, 4, 0)];
    let h = HueHistogram::from_pixels(&pixels);
    assert_eq!(h.stddev(), 1);
}

#[test]
fn minimum_and_maximum_occupied_buckets() {
    let pixels = vec![green(), blue(), green()];
    let h = HueHistogram::from_pixels(&pixels);
    assert_eq!(h.minimum(), 120);
    assert_eq!(h.maximum(), 240);

    let only_red = vec![red()];
    let h = HueHistogram::from_pixels(&only_red);
    assert_eq!(h.minimum(), 0);
    assert_eq!(h.maximum(), 0);
}

#[test]
fn empty_stream_is_an_estimation_error() {
    let pixels: Vec<Pixel> = Vec::new();
    let r = dominant_color(&pixels, Strategy::Mode { tolerance: 20 });
    assert_eq!(r, Err(EstimationError::EmptyStream));
    let r = dominant_color(&pixels, Strategy::Statistical { percentile: 30 });
    assert_eq!(r, Err(EstimationError::EmptyStream));
}

#[test]
fn mode_strategy_keeps_fixed_tolerance() {
    let pixels = vec![green(), green(), red()];
    let c = dominant_color(&pixels, Strategy::Mode { tolerance: 20 }).unwrap();
    assert_eq!(c, Color { hue: 120, tolerance: 20 });
}

#[test]
fn statistical_strategy_on_single_hue_collapses_tolerance() {
    let pixels = vec![green(), green()];
    let c = dominant_color(&pixels, Strategy::Statistical { percentile: 30 }).unwrap();
    assert_eq!(c, Color { hue: 120, tolerance: 0 });
}

#[test]
fn estimator_is_deterministic() {
    let pixels = vec![green(), red(), blue(), px(40, 50, 60)];
    let s = Strategy::Statistical { percentile: 30 };
    assert_eq!(dominant_color(&pixels, s), dominant_color(&pixels, s));
    let m = Strategy::Mode { tolerance: 20 };
    assert_eq!(dominant_color(&pixels, m), dominant_color(&pixels, m));
}

#[test]
fn contains_is_plain_absolute_difference() {
    let c = Color { hue: 120, tolerance: 0 };
    // Exactly 120 degrees: 30600/255.
    assert!(c.contains(30600, 255));
    // 117.6 degrees: outside a zero-width band.
    assert!(!c.contains(30000, 255));

    // Hue is not circular: 359.76 degrees is far from hue 0 even though
    // the angular distance is tiny.
    let c0 = Color { hue: 0, tolerance: 20 };
    assert!(!c0.contains(360 * 255 - 60, 255));
    assert!(c0.contains(20 * 255, 255));
}

//! Quality settings, distances, and scales that follow the content.

use jxl_encoder_gpu::float::Float32;
use jxl_encoder_gpu::mask::{block_extent, mask_block};
use jxl_encoder_gpu::median::median_of;
use jxl_encoder_gpu::pipeline::{distance_of_field, gaborish_at, quant_field_bytes};
use jxl_encoder_gpu::quality::{
    block_means_to_qac_field, block_means_to_qac_field_with_range, distance_to_qac,
    quality_to_qac, K_AC_QUANT,
};

fn wrap(x: f32) -> Float32 {
    Float32::from_bits(x.to_bits())
}

fn wrap_all(v: &[f32]) -> Vec<Float32> {
    v.iter().map(|&x| wrap(x)).collect()
}

fn unwrap(x: Float32) -> f32 {
    f32::from_bits(x.to_bits())
}

fn unwrap_all(v: &[Float32]) -> Vec<f32> {
    v.iter().map(|&x| unwrap(x)).collect()
}

fn quality(q: f32) -> f32 {
    unwrap(quality_to_qac(wrap(q)))
}

fn at_distance(d: f32) -> f32 {
    unwrap(distance_to_qac(wrap(d)))
}

#[test]
fn test_quality_to_qac_monotonic_and_bounded() {
    let qac_100 = quality(100.0);
    let qac_75 = quality(75.0);
    let qac_50 = quality(50.0);
    let qac_25 = quality(25.0);
    let qac_10 = quality(10.0);
    assert!(qac_100 > qac_75);
    assert!(qac_75 >= qac_50, "q=75 ({qac_75}) >= q=50 ({qac_50})");
    assert!(qac_50 > qac_25);
    assert!(qac_25 > qac_10);
    assert!(qac_100 > 1.0, "quality=100 should be qac>1, got {qac_100}");
    assert!(qac_10 < 0.5, "quality=10 should be qac<0.5, got {qac_10}");
    assert_eq!(quality(150.0), quality(100.0));
    assert_eq!(quality(-10.0), quality(1.0));
}

#[test]
fn scales_at_documented_distances() {
    assert_eq!(f32::from_bits(K_AC_QUANT), 0.765);
    assert!((at_distance(1.0) - 0.765).abs() < 1e-6);
    assert!((at_distance(0.5) - 2.0 * 0.765).abs() < 1e-6);
    for (d, q) in [(0.5, 1.530), (1.0, 0.765), (2.0, 0.383), (5.0, 0.153), (10.0, 0.0765)] {
        assert!((at_distance(d) - q).abs() < 6e-4, "{d}");
        assert_eq!(at_distance(d), 0.765_f32 / d);
    }
    for (s, q) in [(100.0, 1.530), (75.0, 1.148), (50.0, 0.765), (25.0, 0.383), (10.0, 0.153), (1.0, 0.0153)] {
        assert!((quality(s) - q).abs() < 6e-4, "{s}");
    }
}

#[test]
fn tiny_distances_are_held_at_a_thousandth() {
    assert_eq!(at_distance(0.0), 0.765_f32 / 1e-3);
    assert_eq!(at_distance(-4.0), 0.765_f32 / 1e-3);
    assert_eq!(at_distance(f32::NAN), 0.765_f32 / 1e-3);
    assert_eq!(at_distance(1e-3), 0.765_f32 / 1e-3);
}

#[test]
fn scales_fall_with_distance() {
    let mut last = f32::INFINITY;
    for k in 0..400 {
        let q = at_distance(k as f32 * 0.05);
        assert!(q <= last);
        last = q;
    }
}

/// The scales of blocks, in the processor's own arithmetic.
fn field(means: &[f32], distance: f32, factor: f32) -> Vec<f32> {
    let low = means.iter().copied().fold(f32::INFINITY, f32::min);
    let high = means.iter().copied().fold(f32::NEG_INFINITY, f32::max);
    let lightest = 0.765_f32 / (distance / factor).max(1e-3);
    let heaviest = 0.765_f32 / (distance * factor).max(1e-3);
    means
        .iter()
        .map(|&m| {
            let t = if high > low { (m - low) / (high - low) } else { 0.5 };
            lightest + (heaviest - lightest) * t
        })
        .collect()
}

#[test]
fn block_scales_follow_the_mask() {
    let means: Vec<f32> = (0..60).map(|i| ((i * 37) % 61) as f32 * 1.7 + 0.3).collect();
    for d in [0.3_f32, 1.0, 2.5, 7.0] {
        let got = unwrap_all(&block_means_to_qac_field(&wrap_all(&means), wrap(d)));
        assert_eq!(got, field(&means, d, 2.0));
        for factor in [1.0_f32, 1.4, 2.0, 3.0] {
            let got = unwrap_all(&block_means_to_qac_field_with_range(
                &wrap_all(&means),
                wrap(d),
                wrap(factor),
            ));
            assert_eq!(got, field(&means, d, factor));
        }
    }
}

#[test]
fn smoother_blocks_get_smaller_scales() {
    let means = [3.0_f32, 1.0, 2.0, 4.0, 1.0];
    let got = unwrap_all(&block_means_to_qac_field(&wrap_all(&means), wrap(1.0)));
    for i in 0..means.len() {
        for j in 0..means.len() {
            if means[i] <= means[j] {
                assert!(got[i] >= got[j]);
            }
        }
        assert!(got[i] <= at_distance(0.5));
    }
    assert_eq!(got[1], at_distance(0.5));
    assert_eq!(got[4], at_distance(0.5));
}

#[test]
fn a_range_of_one_is_uniform() {
    let means = [3.0_f32, 1.0, 2.0];
    let got = block_means_to_qac_field_with_range(&wrap_all(&means), wrap(1.3), wrap(1.0));
    assert_eq!(unwrap_all(&got), vec![at_distance(1.3); 3]);
}

#[test]
fn equal_means_lie_in_the_middle() {
    let got = block_means_to_qac_field(&wrap_all(&[5.0, 5.0]), wrap(1.0));
    let light = at_distance(0.5);
    let heavy = at_distance(2.0);
    assert_eq!(unwrap_all(&got), vec![light + (heavy - light) * 0.5; 2]);
}

#[test]
fn no_means_give_no_scales() {
    assert!(block_means_to_qac_field(&[], wrap(1.0)).is_empty());
}

#[test]
fn the_smoothest_block_may_fall_just_below_its_end_of_the_range() {
    // In exact arithmetic it would be the scale for a distance of one.
    let got = block_means_to_qac_field(&wrap_all(&[0.0, 1.0]), wrap(0.5));
    assert_eq!(unwrap(got[1]).to_bits(), 0x3f43_d708);
    assert_eq!(at_distance(1.0).to_bits(), 0x3f43_d70a);
}

#[test]
fn scales_stay_within_their_range() {
    let means: Vec<f32> = (0..97).map(|i| ((i * 41) % 89) as f32 * 0.6 + 0.1).collect();
    let largest = means.iter().fold(0.0_f32, |a, &b| a.max(b));
    for d in [0.1_f32, 0.5, 1.0, 1.7, 6.0, 25.0] {
        for factor in [1.0_f32, 1.3, 2.0, 5.0] {
            let got = unwrap_all(&block_means_to_qac_field_with_range(
                &wrap_all(&means),
                wrap(d),
                wrap(factor),
            ));
            let (light, heavy) = (at_distance(d / factor), at_distance(d * factor));
            let least = got.iter().fold(f32::INFINITY, |a, &b| a.min(b));
            for (mean, scale) in means.iter().zip(&got) {
                assert!(*scale <= light);
                let below = heavy as f64 - *scale as f64;
                assert!(below * 4_194_304.0 <= light as f64, "{d} {factor} {below}");
                assert!(*mean < largest || *scale == least);
            }
        }
    }
}

#[test]
fn the_smoothest_block_gets_the_far_end_of_the_range() {
    let means = [4.0_f32, 9.5, 1.25, 9.5, 7.0];
    for d in [0.2_f32, 0.5, 1.0, 3.3, 14.0] {
        for factor in [1.0_f32, 1.5, 2.0, 4.0] {
            let got = unwrap_all(&block_means_to_qac_field_with_range(
                &wrap_all(&means),
                wrap(d),
                wrap(factor),
            ));
            let off = got[1] as f64 - at_distance(d * factor) as f64;
            assert!(off.abs() * 4_194_304.0 <= at_distance(d / factor) as f64, "{d} {factor}");
            assert_eq!(got[1], got[3]);
            assert_eq!(got[2], at_distance(d / factor));
        }
    }
}

/// The distance that this many scales of 1.6 stand for.
fn distance_of_light(n: usize) -> f32 {
    unwrap(distance_of_field(&vec![wrap(1.6); n]))
}

#[test]
fn many_light_scales_still_keep_below_one_half() {
    for n in [1, 2, 3, 1280, 1281, 2560, 5120, 20_484, 81_864, 328_588, 1_296_504] {
        assert!(distance_of_light(n) <= 0.5, "{n}");
    }
    assert!(distance_of_light(5_079_898) <= 0.5);
}

#[test]
fn sums_of_millions_of_scales_fall_behind_and_catch_up() {
    // In exact arithmetic the mean would be 1.6 throughout.
    assert!(distance_of_light(5_079_899) > 0.5);
    assert!(distance_of_light(5_517_035) > 0.5);
    assert!(distance_of_light(5_517_036) <= 0.5);
}

#[test]
fn sums_that_stand_still_keep_pace_for_a_while() {
    assert!(distance_of_light(21_931_002) <= 0.5);
}

#[test]
fn sums_that_stand_still_fall_behind_in_the_end() {
    assert!(distance_of_light(21_931_003) > 0.5);
}

#[test]
fn medians_agree_with_sorting() {
    let mut state: u32 = 99;
    for n in 1..80_usize {
        let v: Vec<f32> = (0..n)
            .map(|_| {
                state = state.wrapping_mul(1_664_525).wrapping_add(1_013_904_223);
                (state >> 20) as f32 * 0.125 - 200.0
            })
            .collect();
        let mut sorted = v.clone();
        sorted.sort_by(|a, b| a.partial_cmp(b).unwrap());
        assert_eq!(unwrap(median_of(&wrap_all(&v)).unwrap()), sorted[n / 2]);
    }
}

#[test]
fn medians_of_edge_numbers() {
    assert!(median_of(&[]).is_none());
    assert_eq!(unwrap(median_of(&wrap_all(&[f32::INFINITY])).unwrap()), f32::INFINITY);
    assert_eq!(unwrap(median_of(&wrap_all(&[f32::NEG_INFINITY])).unwrap()), f32::NEG_INFINITY);
    assert_eq!(unwrap(median_of(&wrap_all(&[-0.0, 0.0, -0.0])).unwrap()), 0.0);
    assert_eq!(unwrap(median_of(&wrap_all(&[1.0, 2.0])).unwrap()), 2.0);
    assert_eq!(unwrap(median_of(&wrap_all(&[f32::from_bits(1), 0.0, -1.0])).unwrap()), 0.0);
    // What is no number comes after every number.
    let nan = f32::NAN;
    assert_eq!(unwrap(median_of(&wrap_all(&[nan, 1.0, 2.0])).unwrap()), 2.0);
    assert_eq!(unwrap(median_of(&wrap_all(&[3.0, nan, 1.0, 2.0])).unwrap()), 3.0);
    assert!(unwrap(median_of(&wrap_all(&[nan, 1.0])).unwrap()).is_nan());
    assert!(unwrap(median_of(&wrap_all(&[nan])).unwrap()).is_nan());
}

#[test]
fn fields_become_bytes() {
    let field = wrap_all(&[0.765, 0.01, 0.0, 1.53, 5.11, 9.0]);
    assert_eq!(quant_field_bytes(&field), vec![38, 1, 1, 77, 255, 255]);
}

#[test]
fn sharpening_begins_above_one_half() {
    assert!(!gaborish_at(wrap(0.5)));
    assert!(gaborish_at(wrap(0.50001)));
    assert!(!gaborish_at(wrap(f32::NAN)));
    let d = unwrap(distance_of_field(&wrap_all(&[0.765; 4])));
    assert_eq!(d, 1.0);
}

#[test]
fn blocks_end_at_the_image() {
    assert_eq!(block_extent(0, 20), (0, 8));
    assert_eq!(block_extent(2, 20), (16, 20));
    assert_eq!(block_extent(3, 20), (24, 24));
    let mask: Vec<f32> = (0..10 * 9).map(|i| i as f32).collect();
    let mask = wrap_all(&mask);
    let whole = unwrap_all(&mask_block(&mask, 10, 9, 0, 0));
    assert_eq!(whole.len(), 64);
    assert_eq!(&whole[..9], &[0.0, 1.0, 2.0, 3.0, 4.0, 5.0, 6.0, 7.0, 10.0]);
    assert_eq!(unwrap_all(&mask_block(&mask, 10, 9, 1, 1)), vec![88.0, 89.0]);
    assert!(mask_block(&mask, 10, 9, 2, 0).is_empty());
}

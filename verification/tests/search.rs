//! The decisions of the strategy search.

use jxl_encoder_gpu::assignment::StrategyAssignment;
use jxl_encoder_gpu::device::GpuEncoder;
use jxl_encoder_gpu::float::Float32;
use jxl_encoder_gpu::lossy_encoder::LossyEncoder;
use jxl_encoder_gpu::persistent::GaborishWeights;
use jxl_encoder_gpu::search::{
    search_cost_model, subblock_specs, SearchGates, SearchScales,
};
use jxl_encoder_gpu::search_costs::{collect_costs, cost_jobs, weigh_costs, CostJob, RawCosts};
use jxl_encoder_gpu::strategy::{
    RAW_STRATEGY_AFV2, RAW_STRATEGY_DCT, RAW_STRATEGY_DCT16X16, RAW_STRATEGY_DCT2X2,
    RAW_STRATEGY_DCT32X16, RAW_STRATEGY_DCT32X32, RAW_STRATEGY_DCT4X4, RAW_STRATEGY_DCT4X8,
    RAW_STRATEGY_DCT64X64, RAW_STRATEGY_DCT8X4, RAW_STRATEGY_IDENTITY,
};

fn wrap(x: f32) -> Float32 {
    Float32::from_bits(x.to_bits())
}

fn unwrap(x: Float32) -> f32 {
    f32::from_bits(x.to_bits())
}

fn same(x: f32, n: usize) -> Vec<Float32> {
    vec![wrap(x); n]
}

fn encoder(w: u32, h: u32) -> LossyEncoder {
    let zero = wrap(0.0);
    let weights = GaborishWeights {
        wc: zero,
        wr: zero,
        wd: zero,
        w_big_r: zero,
        wl: zero,
        w_big_d: zero,
    };
    let mut enc = GpuEncoder::new();
    LossyEncoder::new(&mut enc, w, h, &same(1.0, 192), weights)
}

#[test]
fn effort_decides_what_is_considered() {
    let all = SearchGates {
        dct16: true,
        sub_blocks: true,
        dct4x8: true,
        rect32: true,
        dct32: true,
        dct64: true,
    };
    for effort in 7..=9 {
        assert_eq!(encoder(64, 128).with_effort(effort).search_gates(), all);
    }
    let six = encoder(64, 128).with_effort(6).search_gates();
    assert_eq!(six, SearchGates { dct32: false, dct64: false, ..all });
    let five = encoder(64, 128).with_effort(5).search_gates();
    assert_eq!(five, SearchGates { dct4x8: false, rect32: false, ..six });
    for effort in 1..=4 {
        let gates = encoder(64, 128).with_effort(effort).search_gates();
        assert_eq!(gates, SearchGates { dct16: false, sub_blocks: false, ..five });
    }
}

#[test]
fn large_transforms_need_sizes_that_fit() {
    let gates = encoder(96, 64).search_gates();
    assert!(gates.rect32 && gates.dct32 && !gates.dct64);
    let gates = encoder(48, 64).search_gates();
    assert!(gates.dct16 && !gates.rect32 && !gates.dct32 && !gates.dct64);
    // 100 by 73 pixels are padded to 112 by 80.
    let gates = encoder(100, 73).search_gates();
    assert!(!gates.rect32);
}

#[test]
fn afv_is_evaluated_on_request_and_on_screenshots() {
    let le = encoder(64, 64);
    assert!(!le.evaluates_afv(false, false));
    assert!(le.evaluates_afv(true, false));
    assert!(le.wants_patch_check(true));
    assert!(!le.wants_patch_check(false));
    assert!(!le.evaluates_afv(true, true));
    // Asked for, it happens whatever the content.
    let asked = le.with_evaluate_afv(true).with_effort(3);
    for screenshot in [false, true] {
        for patches in [false, true] {
            assert!(asked.evaluates_afv(screenshot, patches));
        }
        assert!(!asked.wants_patch_check(screenshot));
    }
    // Without the check for patches they change nothing.
    let unchecked = le.with_auto_skip_afv_when_patches(false);
    assert!(!unchecked.wants_patch_check(true));
    assert!(unchecked.evaluates_afv(true, true));
    // Less effort, or the setting off, and it does not happen by itself.
    assert!(!le.with_effort(6).evaluates_afv(true, false));
    assert!(!le.with_auto_evaluate_afv_on_screenshots(false).evaluates_afv(true, false));
}

#[test]
fn content_is_read_from_the_mask() {
    let le = encoder(64, 64);
    let flat = le.read_content(&same(100.0, 64), wrap(1.0));
    assert!(flat.screenshot);
    assert_eq!(unwrap(flat.median.unwrap()), 100.0);
    assert_eq!(flat.aq_field.len(), 64);
    let photo = le.read_content(&same(80.0, 64), wrap(1.0));
    assert!(!photo.screenshot);
    let none = le.read_content(&[], wrap(1.0));
    assert!(none.median.is_none() && !none.screenshot && none.aq_field.is_empty());
    assert!(le.content_looks_like_screenshot(&same(100.0, 64)));
    let on = le.with_auto_libjxl_entropy_mul_on_photos(true);
    assert!(on.uses_reference_multipliers(photo.median));
    assert!(!on.uses_reference_multipliers(flat.median));
    assert!(!on.uses_reference_multipliers(None));
    assert!(!le.uses_reference_multipliers(photo.median));
}

#[test]
fn screenshots_have_medians_above_the_threshold() {
    let le = encoder(64, 64);
    let looks = |v: &[f32]| {
        let v: Vec<Float32> = v.iter().map(|&x| wrap(x)).collect();
        le.content_looks_like_screenshot(&v)
    };
    assert!(!looks(&[]));
    assert!(!looks(&[87.0; 9]));
    assert!(!looks(&[95.0; 9]));
    assert!(looks(&[95.00001; 9]));
    assert!(looks(&[100.01, 3.0, 100.01]));
    assert!(!looks(&[100.01, 3.0, 4.0]));
    // What is no number comes after every number.
    assert!(looks(&[f32::NAN, 3.0, 100.01]));
    assert!(!looks(&[f32::NAN, 3.0, 4.0]));
    assert!(!looks(&[f32::NAN, f32::NAN, 100.01]));
    assert!(!looks(&[f32::NAN]));
}

fn scales(le: &LossyEncoder, d: f32, reference: bool) -> SearchScales {
    le.search_scales(wrap(d), reference)
}

#[test]
fn multipliers_follow_the_distance() {
    let le = encoder(64, 64);
    for d in [0.3_f32, 0.5, 1.0, 1.7, 4.0, 9.5] {
        let s = scales(&le, d, false);
        let bias = (d - 1.0).max(0.0) * 0.3;
        assert_eq!(unwrap(s.qac), 0.765_f32 / d);
        assert_eq!(unwrap(s.mul_8x8), 1.0 + -0.4 / (d + 1.4));
        assert_eq!(unwrap(s.dist_bias), 1.0 + bias);
        assert_eq!(unwrap(s.dist_bias_32), 1.0 + bias * 1.5);
        assert_eq!(unwrap(s.dist_bias_64), 1.0 + bias * 2.0);
        assert_eq!(unwrap(s.entropy_mul_dct4x4), 1.08);
        assert_eq!(unwrap(s.entropy_mul_dct4x8), 0.98);
        assert_eq!(unwrap(s.entropy_mul_identity), 1.85);
        assert_eq!(unwrap(s.entropy_mul_dct2x2), 0.95);
        let field = if d > 0.5 { d } else { d * 0.62 };
        assert_eq!(unwrap(s.distance_for_field), field);
    }
    assert_eq!(unwrap(scales(&le, 4.0, false).dist_bias), 1.900_000_1);
}

#[test]
fn the_reference_multipliers_come_without_bias() {
    let le = encoder(64, 64);
    for d in [0.5_f32, 1.0, 4.0, 12.0] {
        let s = scales(&le, d, true);
        assert_eq!(unwrap(s.dist_bias), 1.0);
        assert_eq!(unwrap(s.dist_bias_32), 1.0);
        assert_eq!(unwrap(s.dist_bias_64), 1.0);
        assert_eq!(unwrap(s.entropy_mul_dct4x8), 0.859_316_37);
        assert_eq!(unwrap(s.entropy_mul_identity), 1.0428);
        assert_eq!(unwrap(s.entropy_mul_dct4x4), 1.08);
    }
    for d in [0.2_f32, 1.0] {
        assert_eq!(unwrap(scales(&le, d, false).dist_bias_64), 1.0);
    }
}

#[test]
fn small_transforms_are_made_dearer_above_four() {
    let off = encoder(64, 64);
    let on = off.with_enable_kavoid_entropy_of_transforms(true);
    for d in [0.5_f32, 2.0, 4.0] {
        assert_eq!(scales(&on, d, false), scales(&off, d, false));
    }
    for (d, penalty) in [(5.0_f32, 4.0_f32), (8.0, 1.0), (12.0, 0.5), (20.0, 0.5)] {
        let s = scales(&on, d, false);
        assert_eq!(unwrap(s.entropy_mul_dct4x4), 1.08 + penalty);
        assert_eq!(unwrap(s.entropy_mul_dct4x8), 0.98 + penalty);
        assert_eq!(unwrap(s.entropy_mul_identity), 1.85);
        assert_eq!(unwrap(s.entropy_mul_dct2x2), 0.95);
    }
    let lazy = on.with_effort(4);
    assert_eq!(scales(&lazy, 8.0, false), scales(&off, 8.0, false));
}

#[test]
fn sub_blocks_are_asked_for_in_order() {
    let le = encoder(64, 64);
    let s = scales(&le, 1.0, false);
    let codes = |effort: u8| -> Vec<u8> {
        subblock_specs(le.with_effort(effort).search_gates(), s)
            .iter()
            .map(|p| p.raw_strategy)
            .collect()
    };
    assert_eq!(
        codes(7),
        vec![
            RAW_STRATEGY_DCT4X4,
            RAW_STRATEGY_DCT4X8,
            RAW_STRATEGY_DCT8X4,
            RAW_STRATEGY_IDENTITY,
            RAW_STRATEGY_DCT2X2,
        ]
    );
    assert_eq!(codes(5), vec![RAW_STRATEGY_DCT4X4, RAW_STRATEGY_IDENTITY, RAW_STRATEGY_DCT2X2]);
    assert!(codes(4).is_empty());
    let specs = subblock_specs(le.search_gates(), s);
    assert_eq!(unwrap(specs[3].entropy_mul), 1.85);
    assert_eq!(specs[1].entropy_mul, specs[2].entropy_mul);
}

/// The costs of a 64x64 image, all the same within a size.
fn raw(gates: SearchGates) -> RawCosts {
    let mut sub_blocks = Vec::new();
    if gates.sub_blocks {
        sub_blocks.push(same(10.0, 64));
    }
    if gates.dct4x8 {
        sub_blocks.push(same(11.0, 64));
        sub_blocks.push(same(12.0, 64));
    }
    if gates.sub_blocks {
        sub_blocks.push(same(13.0, 64));
        sub_blocks.push(same(14.0, 64));
    }
    let when = |on: bool, v: Vec<Float32>| if on { v } else { Vec::new() };
    RawCosts {
        dct8: same(2.0, 64),
        dct16x16: when(gates.dct16, same(20.0, 16)),
        dct16x8: when(gates.dct16, same(9.0, 32)),
        dct8x16: when(gates.dct16, same(9.0, 32)),
        sub_blocks,
        afv: Vec::new(),
        dct32x32: when(gates.dct32, same(100.0, 4)),
        dct32x16: when(gates.rect32, same(60.0, 8)),
        dct16x32: when(gates.rect32, same(60.0, 8)),
        dct64x64: when(gates.dct64, same(500.0, 1)),
        dct64x32: when(gates.dct64, same(300.0, 2)),
        dct32x64: when(gates.dct64, same(300.0, 2)),
    }
}

#[test]
fn costs_are_put_in_place_and_weighed() {
    let le = encoder(64, 64);
    let gates = le.search_gates();
    let s = scales(&le, 2.0, false);
    let mut costs = raw(gates);
    costs.afv = (0..256).map(|i| wrap(i as f32)).collect();
    let t = weigh_costs(&costs, gates, s);
    let b = 1.0_f32 + 0.3;
    assert_eq!(unwrap(t.dct8[5]), 2.0 * (1.0 + -0.4 / (2.0_f32 + 1.4)));
    assert_eq!(unwrap(t.dct16x16[0]), 20.0 * b);
    assert_eq!(unwrap(t.dct4x4[0]), 10.0 * b);
    assert_eq!(unwrap(t.dct4x8[0]), 11.0 * b);
    assert_eq!(unwrap(t.dct8x4[0]), 12.0 * b);
    assert_eq!(unwrap(t.identity[0]), 13.0 * b);
    assert_eq!(unwrap(t.dct2x2[0]), 14.0 * b);
    assert_eq!(unwrap(t.afv0[3]), 3.0 * b);
    assert_eq!(unwrap(t.afv1[0]), 64.0 * b);
    assert_eq!(unwrap(t.afv2[1]), 129.0 * b);
    assert_eq!(unwrap(t.afv3[63]), 255.0 * b);
    assert_eq!(unwrap(t.dct32x32[0]), 100.0 * (1.0 + 0.3_f32 * 1.5));
    assert_eq!(unwrap(t.dct64x32[1]), 300.0 * (1.0 + 0.3_f32 * 2.0));
    let five = le.with_effort(5).search_gates();
    let t = weigh_costs(&raw(five), five, s);
    assert!(t.dct4x8.is_empty() && t.dct8x4.is_empty() && t.afv0.is_empty());
    assert_eq!(unwrap(t.identity[0]), 13.0 * b);
    assert_eq!(unwrap(t.dct2x2[0]), 14.0 * b);
}

fn codes(v: &[StrategyAssignment]) -> Vec<u8> {
    let mut codes: Vec<u8> = v.iter().map(|a| a.raw_strategy).collect();
    codes.sort();
    codes.dedup();
    codes
}

fn chosen(le: &LossyEncoder, costs: &RawCosts) -> Vec<StrategyAssignment> {
    let gates = le.search_gates();
    weigh_costs(costs, gates, scales(le, 1.0, false)).choose_assignments(gates, 8, 8)
}

#[test]
fn cheap_dct8_is_chosen_everywhere() {
    for effort in 1..=9 {
        let le = encoder(64, 64).with_effort(effort);
        let out = chosen(&le, &raw(le.search_gates()));
        assert_eq!(codes(&out), vec![RAW_STRATEGY_DCT], "effort {effort}");
        assert_eq!(out.len(), 64);
    }
}

#[test]
fn cheap_large_transforms_are_chosen_where_considered() {
    let le = encoder(64, 64);
    let mut costs = raw(le.search_gates());
    costs.dct64x64 = same(1.0, 1);
    assert_eq!(codes(&chosen(&le, &costs)), vec![RAW_STRATEGY_DCT64X64]);
    let mut costs = raw(le.search_gates());
    costs.dct32x32 = vec![wrap(1.0), wrap(100.0), wrap(100.0), wrap(1.0)];
    let out = chosen(&le, &costs);
    assert_eq!(codes(&out), vec![RAW_STRATEGY_DCT, RAW_STRATEGY_DCT32X32]);
    assert_eq!((out[0].bx, out[0].by, out[0].raw_strategy), (0, 0, RAW_STRATEGY_DCT32X32));
    assert_eq!(out.len(), 2 + 32);
}

#[test]
fn effort_six_keeps_the_rectangles_of_32() {
    let le = encoder(64, 64).with_effort(6);
    let mut costs = raw(le.search_gates());
    costs.dct32x16 = same(1.0, 8);
    assert_eq!(codes(&chosen(&le, &costs)), vec![RAW_STRATEGY_DCT32X16]);
    // Costs of transforms that are not considered change nothing.
    let mut costs = raw(le.search_gates());
    costs.dct32x32 = same(0.0, 4);
    costs.dct64x64 = same(0.0, 1);
    assert_eq!(codes(&chosen(&le, &costs)), vec![RAW_STRATEGY_DCT]);
}

#[test]
fn middle_efforts_keep_to_their_transforms_whatever_the_costs() {
    for cost in [f32::NAN, f32::INFINITY, f32::NEG_INFINITY, f32::MAX, 0.0] {
        for effort in 5..=6 {
            let le = encoder(64, 64).with_effort(effort);
            let mut costs = raw(le.search_gates());
            let all = |v: &mut Vec<Float32>| v.iter_mut().for_each(|c| *c = wrap(cost));
            all(&mut costs.dct8);
            all(&mut costs.dct16x16);
            all(&mut costs.dct16x8);
            all(&mut costs.dct8x16);
            all(&mut costs.dct32x16);
            all(&mut costs.dct16x32);
            costs.sub_blocks.iter_mut().for_each(all);
            for code in codes(&chosen(&le, &costs)) {
                assert!(code != RAW_STRATEGY_DCT32X32, "effort {effort} cost {cost}");
                assert!(code < RAW_STRATEGY_DCT64X64);
                assert!(effort == 6 || code < RAW_STRATEGY_DCT32X16);
            }
        }
    }
}

#[test]
fn low_effort_is_dct8_only() {
    let le = encoder(64, 64).with_effort(4);
    let mut costs = raw(le.search_gates());
    costs.dct16x16 = same(0.0, 16);
    costs.dct32x32 = same(0.0, 4);
    assert_eq!(codes(&chosen(&le, &costs)), vec![RAW_STRATEGY_DCT]);
    // The AFV transforms, where asked for, are still within 8x8 blocks.
    costs.afv = same(9.0, 256);
    for c in costs.afv[128..192].iter_mut() {
        *c = wrap(0.5);
    }
    assert_eq!(codes(&chosen(&le, &costs)), vec![RAW_STRATEGY_AFV2]);
}

#[test]
fn effort_five_chooses_dct16_where_cheaper() {
    let le = encoder(64, 64).with_effort(5);
    let mut costs = raw(le.search_gates());
    costs.dct16x16[6] = wrap(1.0);
    let out = chosen(&le, &costs);
    assert_eq!(codes(&out), vec![RAW_STRATEGY_DCT, RAW_STRATEGY_DCT16X16]);
    let large: Vec<&StrategyAssignment> =
        out.iter().filter(|a| a.raw_strategy == RAW_STRATEGY_DCT16X16).collect();
    assert_eq!(large.len(), 1);
    assert_eq!((large[0].bx, large[0].by), (4, 2));
}

#[test]
fn the_cost_model_has_its_constants() {
    let model = search_cost_model();
    assert_eq!(unwrap(model.info_loss_base), 1.2);
    assert_eq!(unwrap(model.zeros_mul_base), 9.308_906);
    assert_eq!(unwrap(model.cost_delta_base), 10.833_273);
    assert_eq!((model.cmap_factor_x, model.cmap_factor_b), (0, 0));
}

#[test]
fn jobs_come_in_order_and_their_costs_find_their_places() {
    let le = encoder(64, 64);
    let gates = le.search_gates();
    let s = scales(&le, 1.0, false);
    let jobs = cost_jobs(gates, s, true);
    assert_eq!(jobs.len(), 1 + 1 + 5 + 1 + 2 + 1 + 2 + 3);
    assert_eq!(jobs[0], CostJob::Dct8);
    assert_eq!(jobs[1], CostJob::Dct16x16);
    assert_eq!(jobs[7], CostJob::Afv);
    assert_eq!(jobs[10], CostJob::Dct32x32(wrap(3.0)));
    assert_eq!(jobs[15], CostJob::Dct32x64);
    let replies: Vec<Vec<Float32>> = (0..jobs.len()).map(|i| same(i as f32, i + 1)).collect();
    let costs = collect_costs(&jobs, replies);
    assert_eq!(costs.dct8.len(), 1);
    assert_eq!(costs.dct16x16, same(1.0, 2));
    assert_eq!(costs.sub_blocks.len(), 5);
    assert_eq!(costs.sub_blocks[4], same(6.0, 7));
    assert_eq!(costs.afv, same(7.0, 8));
    assert_eq!(costs.dct16x8, same(8.0, 9));
    assert_eq!(costs.dct32x16, same(11.0, 12));
    assert_eq!(costs.dct32x64, same(15.0, 16));
    let lazy = le.with_effort(3).search_gates();
    assert_eq!(cost_jobs(lazy, s, false), vec![CostJob::Dct8]);
    let six = le.with_effort(6).search_gates();
    assert!(!cost_jobs(six, s, false).contains(&CostJob::Dct32x32(wrap(3.0))));
    assert!(cost_jobs(six, s, false).contains(&CostJob::Dct16x32));
}

#[test]
fn costs_of_wrong_lengths_are_told_apart() {
    let le = encoder(64, 64);
    let gates = le.search_gates();
    let s = scales(&le, 1.0, false);
    assert!(weigh_costs(&raw(gates), gates, s).suits(gates, 8, 8));
    assert!(!weigh_costs(&raw(gates), gates, s).suits(gates, 8, 4));
    let mut costs = raw(gates);
    costs.dct16x8 = same(1.0, 31);
    assert!(!weigh_costs(&costs, gates, s).suits(gates, 8, 8));
    costs.dct16x8 = Vec::new();
    assert!(weigh_costs(&costs, gates, s).suits(gates, 8, 8));
    costs.dct64x64 = Vec::new();
    assert!(!weigh_costs(&costs, gates, s).suits(gates, 8, 8));
}

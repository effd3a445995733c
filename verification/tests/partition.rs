//! Choosing partitions by cost, and turning them into transforms.

use jxl_encoder_gpu::assignment::{
    group_assignments_by_strategy, partitions_16x16_to_assignments,
    partitions_32x32_to_assignments, partitions_64x64_to_assignments, StrategyAssignment,
};
use jxl_encoder_gpu::float::Float32;
use jxl_encoder_gpu::partition::{
    partition_16x16_cost_with_extras, pick_subblock_strategies, select_partitions_16x16, select_partitions_16x16_full,
    select_partitions_32x32, select_partitions_32x32_full, select_partitions_32x32_of_parts,
    select_partitions_32x32_with_extras16, select_partitions_64x64,
    select_partitions_64x64_with_extras16, CostGrids16x16, CostGrids32x32, CostGrids64x64,
    Partition16x16, Partition32x32, Partition64x64, SubBlockCostGrids, SubStrategy,
};
use jxl_encoder_gpu::strategy::{
    weight_table, WeightTable, RAW_STRATEGY_AFV0, RAW_STRATEGY_AFV3, RAW_STRATEGY_DCT,
    RAW_STRATEGY_DCT16X16, RAW_STRATEGY_DCT16X32, RAW_STRATEGY_DCT16X8, RAW_STRATEGY_DCT2X2,
    RAW_STRATEGY_DCT32X16, RAW_STRATEGY_DCT32X32, RAW_STRATEGY_DCT32X64, RAW_STRATEGY_DCT4X4,
    RAW_STRATEGY_DCT4X8, RAW_STRATEGY_DCT64X32, RAW_STRATEGY_DCT64X64, RAW_STRATEGY_DCT8X16,
    RAW_STRATEGY_DCT8X4, RAW_STRATEGY_IDENTITY,
};

fn costs(v: &[f32]) -> Vec<Float32> {
    v.iter().map(|x| Float32::from_bits(x.to_bits())).collect()
}

fn same(x: f32, n: usize) -> Vec<Float32> {
    costs(&vec![x; n])
}

fn value(x: Float32) -> f32 {
    f32::from_bits(x.to_bits())
}

#[test]
fn test_group_assignments_by_strategy() {
    let assignments = vec![
        StrategyAssignment { bx: 0, by: 0, raw_strategy: RAW_STRATEGY_DCT16X16 },
        StrategyAssignment { bx: 2, by: 0, raw_strategy: RAW_STRATEGY_DCT },
        StrategyAssignment { bx: 3, by: 0, raw_strategy: RAW_STRATEGY_DCT },
        StrategyAssignment { bx: 0, by: 2, raw_strategy: RAW_STRATEGY_DCT16X16 },
    ];
    let groups = group_assignments_by_strategy(&assignments);
    assert_eq!(groups.len(), 2);
    assert_eq!(groups[0].0, RAW_STRATEGY_DCT);
    assert_eq!(groups[0].1, vec![(2, 0), (3, 0)]);
    assert_eq!(groups[1].0, RAW_STRATEGY_DCT16X16);
    assert_eq!(groups[1].1, vec![(0, 0), (0, 2)]);
}

#[test]
fn grouping_nothing_gives_no_groups() {
    assert!(group_assignments_by_strategy(&[]).is_empty());
}

#[test]
fn groups_come_in_the_order_of_codes_and_lose_nothing() {
    let assignments: Vec<StrategyAssignment> = (0..40_usize)
        .map(|i| StrategyAssignment { bx: i, by: i / 2, raw_strategy: ((i * 7) % 19) as u8 })
        .collect();
    let groups = group_assignments_by_strategy(&assignments);
    assert!(groups.windows(2).all(|w| w[0].0 < w[1].0));
    let total: usize = groups.iter().map(|g| g.1.len()).sum();
    assert_eq!(total, assignments.len());
    for a in &assignments {
        let group = groups.iter().find(|g| g.0 == a.raw_strategy).unwrap();
        assert!(group.1.contains(&(a.bx, a.by)));
    }
}

#[test]
fn test_partitions_to_assignments_all_dct16() {
    let partitions = vec![Partition16x16::Dct16x16; 4];
    let out = partitions_16x16_to_assignments(&partitions, 4, 4);
    assert_eq!(out.len(), 4);
    for (i, a) in out.iter().enumerate() {
        let rx = (i % 2) * 2;
        let ry = (i / 2) * 2;
        assert_eq!(a.bx, rx);
        assert_eq!(a.by, ry);
        assert_eq!(a.raw_strategy, RAW_STRATEGY_DCT16X16);
    }
}

#[test]
fn test_partitions_to_assignments_four_dct8() {
    let partitions = vec![Partition16x16::FourDct8x8];
    let out = partitions_16x16_to_assignments(&partitions, 2, 2);
    assert_eq!(out.len(), 4);
    let coords: Vec<(usize, usize)> = out.iter().map(|a| (a.bx, a.by)).collect();
    assert_eq!(coords, vec![(0, 0), (1, 0), (0, 1), (1, 1)]);
    for a in &out {
        assert_eq!(a.raw_strategy, RAW_STRATEGY_DCT);
    }
}

#[test]
fn test_partitions_to_assignments_rectangular() {
    let partitions = vec![
        Partition16x16::TwoDct16x8Horizontal,
        Partition16x16::TwoDct8x16Vertical,
    ];
    let out = partitions_16x16_to_assignments(&partitions, 4, 2);
    assert_eq!(out.len(), 4);
    assert_eq!(out[0].raw_strategy, RAW_STRATEGY_DCT16X8);
    assert_eq!((out[0].bx, out[0].by), (0, 0));
    assert_eq!(out[1].raw_strategy, RAW_STRATEGY_DCT16X8);
    assert_eq!((out[1].bx, out[1].by), (1, 0));
    assert_eq!(out[2].raw_strategy, RAW_STRATEGY_DCT8X16);
    assert_eq!((out[2].bx, out[2].by), (2, 0));
    assert_eq!(out[3].raw_strategy, RAW_STRATEGY_DCT8X16);
    assert_eq!((out[3].bx, out[3].by), (2, 1));
}

#[test]
fn sub_blocks_keep_their_own_transforms() {
    let partitions = vec![Partition16x16::FourSubBlocks([
        SubStrategy::Dct4x4,
        SubStrategy::Dct8,
        SubStrategy::Identity,
        SubStrategy::Afv3,
    ])];
    let out = partitions_16x16_to_assignments(&partitions, 2, 2);
    let codes: Vec<u8> = out.iter().map(|a| a.raw_strategy).collect();
    assert_eq!(
        codes,
        vec![RAW_STRATEGY_DCT4X4, RAW_STRATEGY_DCT, RAW_STRATEGY_IDENTITY, RAW_STRATEGY_AFV3]
    );
}

/// How often each 8x8 block is covered.
fn coverage(out: &[StrategyAssignment], xs: usize, ys: usize) -> Vec<usize> {
    let mut seen = vec![0_usize; xs * ys];
    for a in out {
        let (w, h) = match a.raw_strategy {
            RAW_STRATEGY_DCT16X16 => (2, 2),
            RAW_STRATEGY_DCT16X8 => (1, 2),
            RAW_STRATEGY_DCT8X16 => (2, 1),
            RAW_STRATEGY_DCT32X32 => (4, 4),
            RAW_STRATEGY_DCT32X16 => (2, 4),
            RAW_STRATEGY_DCT16X32 => (4, 2),
            RAW_STRATEGY_DCT64X64 => (8, 8),
            RAW_STRATEGY_DCT64X32 => (4, 8),
            RAW_STRATEGY_DCT32X64 => (8, 4),
            _ => (1, 1),
        };
        for y in a.by..a.by + h {
            for x in a.bx..a.bx + w {
                seen[y * xs + x] += 1;
            }
        }
    }
    seen
}

#[test]
fn partitions_of_32_cover_every_block_once() {
    let subs = [
        Partition16x16::Dct16x16,
        Partition16x16::TwoDct16x8Horizontal,
        Partition16x16::TwoDct8x16Vertical,
        Partition16x16::FourDct8x8,
    ];
    let partitions = vec![
        Partition32x32::Dct32x32,
        Partition32x32::TwoDct32x16Horizontal,
        Partition32x32::TwoDct16x32Vertical,
        Partition32x32::Sub16x16(subs),
    ];
    let out = partitions_32x32_to_assignments(&partitions, 8, 8);
    assert_eq!(coverage(&out, 8, 8), vec![1; 64]);
    assert_eq!(out.len(), 1 + 2 + 2 + (1 + 2 + 2 + 4));
    assert_eq!((out[1].bx, out[1].by), (4, 0));
    assert_eq!((out[2].bx, out[2].by), (6, 0));
    assert_eq!((out[3].bx, out[3].by), (0, 4));
    assert_eq!((out[4].bx, out[4].by), (0, 6));
    assert_eq!((out[5].bx, out[5].by), (4, 4));
}

#[test]
fn partitions_of_64_cover_every_block_once() {
    let quarter = Partition32x32::Sub16x16([Partition16x16::FourDct8x8; 4]);
    let partitions = vec![
        Partition64x64::TwoDct64x32Horizontal,
        Partition64x64::Sub32x32([
            Partition32x32::Dct32x32,
            quarter,
            Partition32x32::TwoDct32x16Horizontal,
            Partition32x32::TwoDct16x32Vertical,
        ]),
        Partition64x64::TwoDct32x64Vertical,
        Partition64x64::Dct64x64,
    ];
    let out = partitions_64x64_to_assignments(&partitions, 16, 16);
    assert_eq!(coverage(&out, 16, 16), vec![1; 256]);
    assert_eq!(out[0].raw_strategy, RAW_STRATEGY_DCT64X32);
    assert_eq!((out[1].bx, out[1].by), (4, 0));
    assert_eq!(out.last().unwrap().raw_strategy, RAW_STRATEGY_DCT64X64);
    assert_eq!((out.last().unwrap().bx, out.last().unwrap().by), (8, 8));
}

#[test]
fn cheaper_dct8_wins_over_dct16() {
    let picks = select_partitions_16x16(&same(1.0, 4), &same(5.0, 1), 2, 2);
    assert_eq!(picks, vec![Partition16x16::FourDct8x8]);
    let picks = select_partitions_16x16(&same(1.0, 4), &same(3.0, 1), 2, 2);
    assert_eq!(picks, vec![Partition16x16::Dct16x16]);
}

#[test]
fn a_tie_goes_to_the_larger_transform() {
    let picks = select_partitions_16x16(&same(1.0, 4), &same(4.0, 1), 2, 2);
    assert_eq!(picks, vec![Partition16x16::Dct16x16]);
    let picks = select_partitions_32x32(&same(1.0, 16), &same(4.0, 4), &same(16.0, 1), 4, 4);
    assert_eq!(picks, vec![Partition32x32::Dct32x32]);
}

#[test]
fn regions_are_looked_up_row_by_row() {
    // 4 by 4 blocks; only the bottom left region is cheap as a DCT16x16.
    let dct8 = same(1.0, 16);
    let dct16 = costs(&[9.0, 9.0, 2.0, 9.0]);
    let picks = select_partitions_16x16(&dct8, &dct16, 4, 4);
    assert_eq!(
        picks,
        vec![
            Partition16x16::FourDct8x8,
            Partition16x16::FourDct8x8,
            Partition16x16::Dct16x16,
            Partition16x16::FourDct8x8,
        ]
    );
}

#[test]
fn rectangles_are_considered_where_given() {
    let dct8 = same(2.0, 4);
    let dct16 = same(9.0, 1);
    let rect = costs(&[1.0, 1.5]);
    let other = costs(&[2.0, 2.0]);
    let picks = select_partitions_16x16_full(
        &dct8,
        &dct16,
        CostGrids16x16 { dct_16x8: Some(&rect), dct_8x16: None, ..Default::default() },
        2,
        2,
    );
    assert_eq!(picks, vec![Partition16x16::TwoDct16x8Horizontal]);
    let picks = select_partitions_16x16_full(
        &dct8,
        &dct16,
        CostGrids16x16 { dct_16x8: Some(&other), dct_8x16: Some(&rect), ..Default::default() },
        2,
        2,
    );
    assert_eq!(picks, vec![Partition16x16::TwoDct8x16Vertical]);
}

#[test]
fn sub_blocks_are_picked_cell_by_cell() {
    let dct8 = same(2.0, 4);
    let dct4x4 = costs(&[1.0, 3.0, 3.0, 3.0]);
    let identity = costs(&[1.5, 3.0, 0.5, 3.0]);
    let afv2 = costs(&[3.0, 0.25, 3.0, 3.0]);
    let extra = SubBlockCostGrids {
        dct4x4: Some(&dct4x4),
        identity: Some(&identity),
        afv2: Some(&afv2),
        ..Default::default()
    };
    let expected = [
        SubStrategy::Dct4x4,
        SubStrategy::Afv2,
        SubStrategy::Identity,
        SubStrategy::Dct8,
    ];
    let (cost, subs) = pick_subblock_strategies(&dct8, extra, 2, 0, 0);
    assert_eq!(subs, expected);
    assert_eq!(value(cost), 1.0 + 0.25 + 0.5 + 2.0);
    let picks = select_partitions_16x16_full(
        &dct8,
        &same(9.0, 1),
        CostGrids16x16 { dct_16x8: None, dct_8x16: None, sub_blocks: extra },
        2,
        2,
    );
    assert_eq!(picks, vec![Partition16x16::FourSubBlocks(expected)]);
}

#[test]
fn four_dct8_are_not_spelled_out() {
    let dct8 = same(1.0, 4);
    let dear = same(5.0, 4);
    let extra = SubBlockCostGrids { dct2x2: Some(&dear), ..Default::default() };
    let picks = select_partitions_16x16_full(
        &dct8,
        &same(9.0, 1),
        CostGrids16x16 { dct_16x8: None, dct_8x16: None, sub_blocks: extra },
        2,
        2,
    );
    assert_eq!(picks, vec![Partition16x16::FourDct8x8]);
}

#[test]
fn the_32_tier_compares_all_its_partitions() {
    let dct8 = same(1.0, 16);
    let dct16 = same(3.0, 4);
    let tall = costs(&[5.0, 5.5]);
    let wide = costs(&[4.0, 6.0]);
    let four = Partition32x32::Sub16x16([Partition16x16::Dct16x16; 4]);
    assert_eq!(
        select_partitions_32x32(&dct8, &dct16, &same(13.0, 1), 4, 4),
        vec![four]
    );
    let extra = CostGrids32x32 { dct_32x16: Some(&tall), dct_16x32: None };
    assert_eq!(
        select_partitions_32x32_full(&dct8, &dct16, &same(13.0, 1), extra, 4, 4),
        vec![Partition32x32::TwoDct32x16Horizontal]
    );
    let extra = CostGrids32x32 { dct_32x16: Some(&tall), dct_16x32: Some(&wide) };
    assert_eq!(
        select_partitions_32x32_full(&dct8, &dct16, &same(13.0, 1), extra, 4, 4),
        vec![Partition32x32::TwoDct16x32Vertical]
    );
    let rect = same(0.5, 8);
    let extra16 = CostGrids16x16 { dct_16x8: Some(&rect), dct_8x16: None, ..Default::default() };
    assert_eq!(
        select_partitions_32x32_with_extras16(
            &dct8,
            &dct16,
            &same(13.0, 1),
            extra,
            extra16,
            4,
            4
        ),
        vec![Partition32x32::Sub16x16([Partition16x16::TwoDct16x8Horizontal; 4])]
    );
}

#[test]
fn the_64_tier_compares_all_its_partitions() {
    let dct8 = same(1.0, 64);
    let dct16 = same(3.0, 16);
    let dct32 = same(11.0, 4);
    let quarters = Partition64x64::Sub32x32([Partition32x32::Dct32x32; 4]);
    let picks = select_partitions_64x64(
        &dct8,
        &dct16,
        &dct32,
        &same(45.0, 1),
        CostGrids32x32::default(),
        CostGrids64x64::default(),
        8,
        8,
    );
    assert_eq!(picks, vec![quarters]);
    let halves = costs(&[20.0, 21.0]);
    let extra64 = CostGrids64x64 { dct_64x32: Some(&halves), dct_32x64: None };
    let picks = select_partitions_64x64_with_extras16(
        &dct8,
        &dct16,
        &dct32,
        &same(45.0, 1),
        CostGrids32x32::default(),
        extra64,
        CostGrids16x16::default(),
        8,
        8,
    );
    assert_eq!(picks, vec![Partition64x64::TwoDct64x32Horizontal]);
    let extra64 = CostGrids64x64 { dct_64x32: None, dct_32x64: Some(&halves) };
    let picks = select_partitions_64x64_with_extras16(
        &dct8,
        &dct16,
        &dct32,
        &same(45.0, 1),
        CostGrids32x32::default(),
        extra64,
        CostGrids16x16::default(),
        8,
        8,
    );
    assert_eq!(picks, vec![Partition64x64::TwoDct32x64Vertical]);
    let picks = select_partitions_64x64(
        &dct8,
        &dct16,
        &dct32,
        &same(40.0, 1),
        CostGrids32x32::default(),
        CostGrids64x64::default(),
        8,
        8,
    );
    assert_eq!(picks, vec![Partition64x64::Dct64x64]);
}

#[test]
fn quarters_count_in_full_at_the_64_tier() {
    let dct8 = same(9.0, 64);
    let dct16 = same(36.0, 16);
    let dct32 = same(144.0, 4);
    let cheap = same(1.0, 64);
    let extra16 = CostGrids16x16 {
        dct_16x8: None,
        dct_8x16: None,
        sub_blocks: SubBlockCostGrids { dct4x4: Some(&cheap), ..Default::default() },
    };
    let pick = |dct64: f32| {
        select_partitions_64x64_with_extras16(
            &dct8,
            &dct16,
            &dct32,
            &same(dct64, 1),
            CostGrids32x32::default(),
            CostGrids64x64::default(),
            extra16,
            8,
            8,
        )
    };
    let four = Partition16x16::FourSubBlocks([SubStrategy::Dct4x4; 4]);
    let quarter = Partition32x32::Sub16x16([four; 4]);
    // Sixty-four DCT4x4 cost 64.
    assert_eq!(pick(576.0), vec![Partition64x64::Sub32x32([quarter; 4])]);
    assert_eq!(pick(64.5), vec![Partition64x64::Sub32x32([quarter; 4])]);
    assert_eq!(pick(64.0), vec![Partition64x64::Dct64x64]);
    // At the 32 tier the same transforms are chosen.
    let picks = select_partitions_32x32_with_extras16(
        &dct8,
        &dct16,
        &dct32,
        CostGrids32x32::default(),
        extra16,
        8,
        8,
    );
    assert_eq!(picks, vec![quarter; 4]);
}

#[test]
fn rectangles_count_in_the_quarters_of_64() {
    let halves = same(2.0, 8);
    let extra32 = CostGrids32x32 { dct_32x16: Some(&halves), dct_16x32: None };
    let pick = |dct64: f32| {
        select_partitions_64x64(
            &same(1.0, 64),
            &same(10.0, 16),
            &same(100.0, 4),
            &same(dct64, 1),
            extra32,
            CostGrids64x64::default(),
            8,
            8,
        )
    };
    let split = Partition64x64::Sub32x32([Partition32x32::TwoDct32x16Horizontal; 4]);
    // The quarters cost 4 each.
    assert_eq!(pick(20.0), vec![split]);
    assert_eq!(pick(15.0), vec![Partition64x64::Dct64x64]);
}

#[test]
fn without_its_square_a_32_region_is_its_parts() {
    let dct8 = same(1.0, 16);
    let dct16 = costs(&[3.0, 9.0, 9.0, 9.0]);
    let none16 = CostGrids16x16::default();
    let parts = Partition32x32::Sub16x16([
        Partition16x16::Dct16x16,
        Partition16x16::FourDct8x8,
        Partition16x16::FourDct8x8,
        Partition16x16::FourDct8x8,
    ]);
    // The parts cost 15.
    for (halves, expected) in
        [(8.0, parts), (7.0, Partition32x32::TwoDct32x16Horizontal), (f32::NAN, parts)]
    {
        let halves = same(halves, 2);
        let extra = CostGrids32x32 { dct_32x16: Some(&halves), dct_16x32: None };
        let picks = select_partitions_32x32_of_parts(&dct8, &dct16, extra, none16, 4, 4);
        assert_eq!(picks, vec![expected]);
    }
    let lower = same(6.0, 2);
    let upper = same(7.0, 2);
    let extra = CostGrids32x32 { dct_32x16: Some(&upper), dct_16x32: Some(&lower) };
    let picks = select_partitions_32x32_of_parts(&dct8, &dct16, extra, none16, 4, 4);
    assert_eq!(picks, vec![Partition32x32::TwoDct16x32Vertical]);
    // Where no cost is finite, it is still split.
    let dear = same(f32::INFINITY, 16);
    let lost = same(f32::NAN, 4);
    let picks =
        select_partitions_32x32_of_parts(&dear, &lost, CostGrids32x32::default(), none16, 4, 4);
    assert!(matches!(picks[0], Partition32x32::Sub16x16(_)));
}

#[test]
fn what_is_not_offered_is_not_chosen() {
    // With finite costs no partition is picked whose costs are absent.
    let mut state: u32 = 23;
    let mut next = || {
        state = state.wrapping_mul(1_664_525).wrapping_add(1_013_904_223);
        (state >> 16) as f32 / 64.0
    };
    for round in 0..100 {
        let c8 = costs(&[next(), next(), next(), next()]);
        let c16 = costs(&[next() * 3.0]);
        let tall = costs(&[next(), next()]);
        let pick = select_partitions_16x16_full(
            &c8,
            &c16,
            CostGrids16x16 {
                dct_16x8: if round % 2 == 0 { Some(&tall) } else { None },
                ..Default::default()
            },
            2,
            2,
        )[0];
        assert!(pick != Partition16x16::TwoDct8x16Vertical);
        assert!(!matches!(pick, Partition16x16::FourSubBlocks(_)));
        assert!(round % 2 == 0 || pick != Partition16x16::TwoDct16x8Horizontal);
    }
}

#[test]
fn partitions_cost_the_sum_of_their_blocks() {
    // Regions of 2x2 blocks in an image of 4x4.
    let grid = |from: f32| -> Vec<Float32> {
        (0..16).map(|i| Float32::from_bits((from + i as f32).to_bits())).collect()
    };
    let d8 = grid(1.0);
    let d16 = costs(&[100.0, 200.0, 300.0, 400.0]);
    let (tall, wide, d4) = (grid(40.0), grid(70.0), grid(0.5));
    let (tall, wide) = (&tall[..8], &wide[..8]);
    let all = CostGrids16x16 {
        dct_16x8: Some(tall),
        dct_8x16: Some(wide),
        sub_blocks: SubBlockCostGrids { dct4x4: Some(&d4), ..Default::default() },
    };
    let cost = |p: Partition16x16, extra: CostGrids16x16<'_>, x: usize, y: usize| -> f32 {
        value(partition_16x16_cost_with_extras(p, &d8, &d16, extra, 4, 4, x, y))
    };
    let none = CostGrids16x16::default();
    assert_eq!(cost(Partition16x16::Dct16x16, none, 1, 1), 400.0);
    assert_eq!(cost(Partition16x16::FourDct8x8, none, 1, 0), 3.0 + 4.0 + 7.0 + 8.0);
    assert_eq!(cost(Partition16x16::TwoDct16x8Horizontal, all, 1, 1), 46.0 + 47.0);
    assert_eq!(cost(Partition16x16::TwoDct8x16Vertical, all, 1, 1), 75.0 + 77.0);
    let mixed = Partition16x16::FourSubBlocks([
        SubStrategy::Dct8,
        SubStrategy::Dct4x4,
        SubStrategy::Dct4x4,
        SubStrategy::Dct8,
    ]);
    assert_eq!(cost(mixed, all, 0, 1), 9.0 + 9.5 + 12.5 + 14.0);
    // What is not considered costs infinity.
    let strange = Partition16x16::FourSubBlocks([SubStrategy::Afv2; 4]);
    for p in
        [Partition16x16::TwoDct16x8Horizontal, Partition16x16::TwoDct8x16Vertical, mixed, strange]
    {
        assert_eq!(cost(p, none, 1, 1), f32::INFINITY);
    }
    assert_eq!(cost(strange, all, 0, 0), f32::INFINITY);
    // What is picked has a finite cost, and nothing costs less.
    let picks = select_partitions_16x16_full(&d8, &d16, all, 4, 4);
    for (i, pick) in picks.iter().enumerate() {
        let least = cost(*pick, all, i % 2, i / 2);
        assert!(least.is_finite());
        for p in [
            Partition16x16::Dct16x16,
            Partition16x16::FourDct8x8,
            Partition16x16::TwoDct16x8Horizontal,
            Partition16x16::TwoDct8x16Vertical,
            mixed,
            strange,
        ] {
            assert!(cost(p, all, i % 2, i / 2) >= least);
        }
    }
}

#[test]
fn costs_far_below_zero_may_leave_no_cost() {
    let low = same(f32::MIN, 4);
    let cost = |p: Partition16x16| -> f32 {
        let none = CostGrids16x16::default();
        value(partition_16x16_cost_with_extras(p, &low, &same(0.0, 1), none, 2, 2, 0, 0))
    };
    assert_eq!(cost(Partition16x16::FourDct8x8), f32::NEG_INFINITY);
    let mut subs = [SubStrategy::Dct8; 4];
    subs[3] = SubStrategy::Dct4x4;
    assert!(cost(Partition16x16::FourSubBlocks(subs)).is_nan());
    subs = [SubStrategy::Dct8; 4];
    subs[0] = SubStrategy::Dct4x4;
    assert_eq!(cost(Partition16x16::FourSubBlocks(subs)), f32::INFINITY);
}

#[test]
fn no_partition_beats_the_one_chosen() {
    // Every partition of one 16x16 region, by hand.
    let mut state: u32 = 7;
    let mut next = || {
        state = state.wrapping_mul(1_664_525).wrapping_add(1_013_904_223);
        (state >> 16) as f32 / 64.0
    };
    for _ in 0..200 {
        let d8: Vec<f32> = (0..4).map(|_| next()).collect();
        let d4: Vec<f32> = (0..4).map(|_| next()).collect();
        let d16 = next() * 3.0;
        let tall: Vec<f32> = (0..2).map(|_| next() * 1.5).collect();
        let wide: Vec<f32> = (0..2).map(|_| next() * 1.5).collect();
        let (c8, c4) = (costs(&d8), costs(&d4));
        let (ct, cw) = (costs(&tall), costs(&wide));
        let pick = select_partitions_16x16_full(
            &c8,
            &costs(&[d16]),
            CostGrids16x16 {
                dct_16x8: Some(&ct),
                dct_8x16: Some(&cw),
                sub_blocks: SubBlockCostGrids { dct4x4: Some(&c4), ..Default::default() },
            },
            2,
            2,
        )[0];
        let cells: f32 = d8.iter().zip(&d4).map(|(a, b)| a.min(*b)).sum();
        let least = d16
            .min(tall[0] + tall[1])
            .min(wide[0] + wide[1])
            .min(d8[0] + d8[1] + d8[2] + d8[3])
            .min(cells);
        let cost = match pick {
            Partition16x16::Dct16x16 => d16,
            Partition16x16::TwoDct16x8Horizontal => tall[0] + tall[1],
            Partition16x16::TwoDct8x16Vertical => wide[0] + wide[1],
            Partition16x16::FourDct8x8 => d8[0] + d8[1] + d8[2] + d8[3],
            Partition16x16::FourSubBlocks(_) => cells,
        };
        assert_eq!(cost, least);
    }
}

#[test]
fn transforms_have_their_tables() {
    let shared = [
        (RAW_STRATEGY_DCT16X8, RAW_STRATEGY_DCT8X16, WeightTable::Dct16x8),
        (RAW_STRATEGY_DCT32X16, RAW_STRATEGY_DCT16X32, WeightTable::Dct32x16),
        (RAW_STRATEGY_DCT64X32, RAW_STRATEGY_DCT32X64, WeightTable::Dct64x32),
        (RAW_STRATEGY_DCT4X8, RAW_STRATEGY_DCT8X4, WeightTable::Dct4x8),
        (RAW_STRATEGY_AFV0, RAW_STRATEGY_AFV3, WeightTable::Afv),
    ];
    for (a, b, table) in shared {
        assert_eq!(weight_table(a), Some(table));
        assert_eq!(weight_table(b), Some(table));
    }
    assert_eq!(weight_table(RAW_STRATEGY_DCT), Some(WeightTable::Dct8));
    assert_eq!(weight_table(RAW_STRATEGY_DCT16X16), Some(WeightTable::Dct16x16));
    assert_eq!(weight_table(RAW_STRATEGY_DCT32X32), Some(WeightTable::Dct32x32));
    assert_eq!(weight_table(RAW_STRATEGY_DCT64X64), Some(WeightTable::Dct64x64));
    assert_eq!(weight_table(RAW_STRATEGY_DCT4X4), Some(WeightTable::Dct4x4));
    assert_eq!(weight_table(RAW_STRATEGY_IDENTITY), Some(WeightTable::Identity));
    assert_eq!(weight_table(RAW_STRATEGY_DCT2X2), Some(WeightTable::Dct2x2));
    assert_eq!(weight_table(RAW_STRATEGY_DCT32X64 + 1), None);
}

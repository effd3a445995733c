//! From partitions to transforms at block positions.

use crate::partition::{
    lemma_cell_of_index, Partition16x16, Partition32x32, Partition64x64, SubStrategy,
};
use crate::strategy::{
    RAW_STRATEGY_AFV0, RAW_STRATEGY_AFV1, RAW_STRATEGY_AFV2, RAW_STRATEGY_AFV3, RAW_STRATEGY_DCT,
    RAW_STRATEGY_DCT16X16, RAW_STRATEGY_DCT16X32, RAW_STRATEGY_DCT16X8, RAW_STRATEGY_DCT2X2,
    RAW_STRATEGY_DCT32X16, RAW_STRATEGY_DCT32X32, RAW_STRATEGY_DCT32X64, RAW_STRATEGY_DCT4X4,
    RAW_STRATEGY_DCT4X8, RAW_STRATEGY_DCT64X32, RAW_STRATEGY_DCT64X64, RAW_STRATEGY_DCT8X16,
    RAW_STRATEGY_DCT8X4, RAW_STRATEGY_IDENTITY,
};
use vstd::prelude::*;

verus! {

/// A transform and the 8x8 block at its top left corner.
#[derive(Clone, Copy, Debug, PartialEq, Eq, Structural)]
pub struct StrategyAssignment {
    pub bx: usize,
    pub by: usize,
    pub raw_strategy: u8,
}

/// A transform at a block position: column, row and code.
pub type Placement = (int, int, u8);

/// The placements that a list of assignments stands for.
pub open spec fn placements(s: Seq<StrategyAssignment>) -> Seq<Placement> {
    Seq::new(s.len(), |i: int| (s[i].bx as int, s[i].by as int, s[i].raw_strategy))
}

/// Placements moved right by `dx` and down by `dy` blocks.
pub open spec fn shifted(s: Seq<Placement>, dx: int, dy: int) -> Seq<Placement> {
    Seq::new(s.len(), |i: int| (s[i].0 + dx, s[i].1 + dy, s[i].2))
}

/// Square regions of `size` by `size` blocks, `xs` to a row, put together in
/// row-major order. Each region's placements count from its own corner.
pub open spec fn layout(regions: Seq<Seq<Placement>>, xs: int, size: int) -> Seq<Placement>
    decreases regions.len(),
{
    if regions.len() == 0 {
        Seq::empty()
    } else {
        let k = regions.len() - 1;
        layout(regions.drop_last(), xs, size) + shifted(
            regions.last(),
            (k % xs) * size,
            (k / xs) * size,
        )
    }
}

/// The code of an 8x8-block transform.
pub open spec fn sub_strategy_code(s: SubStrategy) -> u8 {
    match s {
        SubStrategy::Dct8 => RAW_STRATEGY_DCT,
        SubStrategy::Dct4x4 => RAW_STRATEGY_DCT4X4,
        SubStrategy::Dct4x8 => RAW_STRATEGY_DCT4X8,
        SubStrategy::Dct8x4 => RAW_STRATEGY_DCT8X4,
        SubStrategy::Identity => RAW_STRATEGY_IDENTITY,
        SubStrategy::Dct2x2 => RAW_STRATEGY_DCT2X2,
        SubStrategy::Afv0 => RAW_STRATEGY_AFV0,
        SubStrategy::Afv1 => RAW_STRATEGY_AFV1,
        SubStrategy::Afv2 => RAW_STRATEGY_AFV2,
        SubStrategy::Afv3 => RAW_STRATEGY_AFV3,
    }
}

/// The transforms of a partitioned 16x16 region.
pub open spec fn region16(p: Partition16x16) -> Seq<Placement> {
    match p {
        Partition16x16::Dct16x16 => seq![(0int, 0int, RAW_STRATEGY_DCT16X16)],
        Partition16x16::TwoDct16x8Horizontal => seq![
            (0int, 0int, RAW_STRATEGY_DCT16X8),
            (1int, 0int, RAW_STRATEGY_DCT16X8),
        ],
        Partition16x16::TwoDct8x16Vertical => seq![
            (0int, 0int, RAW_STRATEGY_DCT8X16),
            (0int, 1int, RAW_STRATEGY_DCT8X16),
        ],
        Partition16x16::FourDct8x8 => seq![
            (0int, 0int, RAW_STRATEGY_DCT),
            (1int, 0int, RAW_STRATEGY_DCT),
            (0int, 1int, RAW_STRATEGY_DCT),
            (1int, 1int, RAW_STRATEGY_DCT),
        ],
        Partition16x16::FourSubBlocks(subs) => seq![
            (0int, 0int, sub_strategy_code(subs@[0])),
            (1int, 0int, sub_strategy_code(subs@[1])),
            (0int, 1int, sub_strategy_code(subs@[2])),
            (1int, 1int, sub_strategy_code(subs@[3])),
        ],
    }
}

/// The transforms of a partitioned 32x32 region.
pub open spec fn region32(p: Partition32x32) -> Seq<Placement> {
    match p {
        Partition32x32::Dct32x32 => seq![(0int, 0int, RAW_STRATEGY_DCT32X32)],
        Partition32x32::TwoDct32x16Horizontal => seq![
            (0int, 0int, RAW_STRATEGY_DCT32X16),
            (2int, 0int, RAW_STRATEGY_DCT32X16),
        ],
        Partition32x32::TwoDct16x32Vertical => seq![
            (0int, 0int, RAW_STRATEGY_DCT16X32),
            (0int, 2int, RAW_STRATEGY_DCT16X32),
        ],
        Partition32x32::Sub16x16(subs) => layout(
            Seq::new(4, |i: int| region16(subs@[i])),
            2,
            2,
        ),
    }
}

/// The transforms of a partitioned 64x64 region.
pub open spec fn region64(p: Partition64x64) -> Seq<Placement> {
    match p {
        Partition64x64::Dct64x64 => seq![(0int, 0int, RAW_STRATEGY_DCT64X64)],
        Partition64x64::TwoDct64x32Horizontal => seq![
            (0int, 0int, RAW_STRATEGY_DCT64X32),
            (4int, 0int, RAW_STRATEGY_DCT64X32),
        ],
        Partition64x64::TwoDct32x64Vertical => seq![
            (0int, 0int, RAW_STRATEGY_DCT32X64),
            (0int, 4int, RAW_STRATEGY_DCT32X64),
        ],
        Partition64x64::Sub32x32(subs) => layout(
            Seq::new(4, |i: int| region32(subs@[i])),
            2,
            4,
        ),
    }
}

fn sub_strategy_raw(s: SubStrategy) -> (r: u8)
    ensures
        r == sub_strategy_code(s),
{
    match s {
        SubStrategy::Dct8 => RAW_STRATEGY_DCT,
        SubStrategy::Dct4x4 => RAW_STRATEGY_DCT4X4,
        SubStrategy::Dct4x8 => RAW_STRATEGY_DCT4X8,
        SubStrategy::Dct8x4 => RAW_STRATEGY_DCT8X4,
        SubStrategy::Identity => RAW_STRATEGY_IDENTITY,
        SubStrategy::Dct2x2 => RAW_STRATEGY_DCT2X2,
        SubStrategy::Afv0 => RAW_STRATEGY_AFV0,
        SubStrategy::Afv1 => RAW_STRATEGY_AFV1,
        SubStrategy::Afv2 => RAW_STRATEGY_AFV2,
        SubStrategy::Afv3 => RAW_STRATEGY_AFV3,
    }
}

fn place(out: &mut Vec<StrategyAssignment>, bx: usize, by: usize, raw_strategy: u8)
    ensures
        placements(final(out)@) == placements(old(out)@).push((bx as int, by as int, raw_strategy)),
{
    out.push(StrategyAssignment { bx, by, raw_strategy });
    assert(placements(out@) =~= placements(old(out)@).push((bx as int, by as int, raw_strategy)));
}

fn place_region16(out: &mut Vec<StrategyAssignment>, p: Partition16x16, bx: usize, by: usize)
    requires
        bx < usize::MAX,
        by < usize::MAX,
    ensures
        placements(final(out)@) == placements(old(out)@) + shifted(
            region16(p),
            bx as int,
            by as int,
        ),
{
    match p {
        Partition16x16::Dct16x16 => {
            place(out, bx, by, RAW_STRATEGY_DCT16X16);
        },
        Partition16x16::TwoDct16x8Horizontal => {
            place(out, bx, by, RAW_STRATEGY_DCT16X8);
            place(out, bx + 1, by, RAW_STRATEGY_DCT16X8);
        },
        Partition16x16::TwoDct8x16Vertical => {
            place(out, bx, by, RAW_STRATEGY_DCT8X16);
            place(out, bx, by + 1, RAW_STRATEGY_DCT8X16);
        },
        Partition16x16::FourDct8x8 => {
            place(out, bx, by, RAW_STRATEGY_DCT);
            place(out, bx + 1, by, RAW_STRATEGY_DCT);
            place(out, bx, by + 1, RAW_STRATEGY_DCT);
            place(out, bx + 1, by + 1, RAW_STRATEGY_DCT);
        },
        Partition16x16::FourSubBlocks(subs) => {
            place(out, bx, by, sub_strategy_raw(subs[0]));
            place(out, bx + 1, by, sub_strategy_raw(subs[1]));
            place(out, bx, by + 1, sub_strategy_raw(subs[2]));
            place(out, bx + 1, by + 1, sub_strategy_raw(subs[3]));
        },
    }
    assert(placements(out@) =~= placements(old(out)@) + shifted(
        region16(p),
        bx as int,
        by as int,
    ));
}

proof fn lemma_shifted_twice(s: Seq<Placement>, a: int, b: int, c: int, d: int)
    ensures
        shifted(shifted(s, a, b), c, d) == shifted(s, a + c, b + d),
{
    assert(shifted(shifted(s, a, b), c, d) =~= shifted(s, a + c, b + d));
}

proof fn lemma_shifted_add(s: Seq<Placement>, t: Seq<Placement>, a: int, b: int)
    ensures
        shifted(s + t, a, b) == shifted(s, a, b) + shifted(t, a, b),
{
    assert(shifted(s + t, a, b) =~= shifted(s, a, b) + shifted(t, a, b));
}

/// Four regions in two rows of two, moved as a whole.
proof fn lemma_shifted_quad(regions: Seq<Seq<Placement>>, size: int, dx: int, dy: int)
    requires
        regions.len() == 4,
    ensures
        shifted(layout(regions, 2, size), dx, dy) == shifted(regions[0], dx, dy) + shifted(
            regions[1],
            dx + size,
            dy,
        ) + shifted(regions[2], dx, dy + size) + shifted(regions[3], dx + size, dy + size),
{
    let r3 = regions.drop_last();
    let r2 = r3.drop_last();
    let r1 = r2.drop_last();
    let r0 = r1.drop_last();
    assert(r0.len() == 0);
    assert(layout(r0, 2, size) == Seq::<Placement>::empty());
    let l1 = layout(r1, 2, size);
    let l2 = layout(r2, 2, size);
    let l3 = layout(r3, 2, size);
    let l4 = layout(regions, 2, size);
    assert(r1.last() == regions[0] && r2.last() == regions[1] && r3.last() == regions[2]
        && regions.last() == regions[3]);
    assert(0 * size == 0 && 1 * size == size) by (nonlinear_arith);
    assert(l1 == layout(r0, 2, size) + shifted(regions[0], (0int % 2) * size, (0int / 2) * size));
    assert(l2 == l1 + shifted(regions[1], (1int % 2) * size, (1int / 2) * size));
    assert(l3 == l2 + shifted(regions[2], (2int % 2) * size, (2int / 2) * size));
    assert(l4 == l3 + shifted(regions[3], (3int % 2) * size, (3int / 2) * size));
    assert(shifted(Seq::<Placement>::empty(), dx, dy) =~= Seq::<Placement>::empty());
    lemma_shifted_add(layout(r0, 2, size), shifted(regions[0], 0, 0), dx, dy);
    lemma_shifted_add(l1, shifted(regions[1], size, 0), dx, dy);
    lemma_shifted_add(l2, shifted(regions[2], 0, size), dx, dy);
    lemma_shifted_add(l3, shifted(regions[3], size, size), dx, dy);
    lemma_shifted_twice(regions[0], 0, 0, dx, dy);
    lemma_shifted_twice(regions[1], size, 0, dx, dy);
    lemma_shifted_twice(regions[2], 0, size, dx, dy);
    lemma_shifted_twice(regions[3], size, size, dx, dy);
    assert(Seq::<Placement>::empty() + shifted(regions[0], dx, dy) =~= shifted(
        regions[0],
        dx,
        dy,
    ));
}

fn place_region32(out: &mut Vec<StrategyAssignment>, p: Partition32x32, bx: usize, by: usize)
    requires
        bx + 3 <= usize::MAX,
        by + 3 <= usize::MAX,
    ensures
        placements(final(out)@) == placements(old(out)@) + shifted(
            region32(p),
            bx as int,
            by as int,
        ),
{
    match p {
        Partition32x32::Dct32x32 => {
            place(out, bx, by, RAW_STRATEGY_DCT32X32);
        },
        Partition32x32::TwoDct32x16Horizontal => {
            place(out, bx, by, RAW_STRATEGY_DCT32X16);
            place(out, bx + 2, by, RAW_STRATEGY_DCT32X16);
        },
        Partition32x32::TwoDct16x32Vertical => {
            place(out, bx, by, RAW_STRATEGY_DCT16X32);
            place(out, bx, by + 2, RAW_STRATEGY_DCT16X32);
        },
        Partition32x32::Sub16x16(subs) => {
            place_region16(out, subs[0], bx, by);
            place_region16(out, subs[1], bx + 2, by);
            place_region16(out, subs[2], bx, by + 2);
            place_region16(out, subs[3], bx + 2, by + 2);
            proof {
                lemma_shifted_quad(
                    Seq::new(4, |i: int| region16(subs@[i])),
                    2,
                    bx as int,
                    by as int,
                );
            }
        },
    }
    assert(placements(out@) =~= placements(old(out)@) + shifted(
        region32(p),
        bx as int,
        by as int,
    ));
}

fn place_region64(out: &mut Vec<StrategyAssignment>, p: Partition64x64, bx: usize, by: usize)
    requires
        bx + 7 <= usize::MAX,
        by + 7 <= usize::MAX,
    ensures
        placements(final(out)@) == placements(old(out)@) + shifted(
            region64(p),
            bx as int,
            by as int,
        ),
{
    match p {
        Partition64x64::Dct64x64 => {
            place(out, bx, by, RAW_STRATEGY_DCT64X64);
        },
        Partition64x64::TwoDct64x32Horizontal => {
            place(out, bx, by, RAW_STRATEGY_DCT64X32);
            place(out, bx + 4, by, RAW_STRATEGY_DCT64X32);
        },
        Partition64x64::TwoDct32x64Vertical => {
            place(out, bx, by, RAW_STRATEGY_DCT32X64);
            place(out, bx, by + 4, RAW_STRATEGY_DCT32X64);
        },
        Partition64x64::Sub32x32(subs) => {
            place_region32(out, subs[0], bx, by);
            place_region32(out, subs[1], bx + 4, by);
            place_region32(out, subs[2], bx, by + 4);
            place_region32(out, subs[3], bx + 4, by + 4);
            proof {
                lemma_shifted_quad(
                    Seq::new(4, |i: int| region32(subs@[i])),
                    4,
                    bx as int,
                    by as int,
                );
            }
        },
    }
    assert(placements(out@) =~= placements(old(out)@) + shifted(
        region64(p),
        bx as int,
        by as int,
    ));
}

/// The transforms of an image split into 16x16 regions, region by region in
/// row-major order. The image has `xsize_blocks_8` by `ysize_blocks_8` 8x8
/// blocks, both even.
pub fn partitions_16x16_to_assignments(
    partitions: &[Partition16x16],
    xsize_blocks_8: usize,
    ysize_blocks_8: usize,
) -> (r: Vec<StrategyAssignment>)
    requires
        xsize_blocks_8 % 2 == 0,
        ysize_blocks_8 % 2 == 0,
        partitions@.len() == (xsize_blocks_8 / 2) * (ysize_blocks_8 / 2),
    ensures
        placements(r@) == layout(
            Seq::new(partitions@.len(), |i: int| region16(partitions@[i])),
            xsize_blocks_8 as int / 2,
            2,
        ),
{
    let xs: usize = xsize_blocks_8 / 2;
    let ys: usize = ysize_blocks_8 / 2;
    let n: usize = partitions.len();
    let ghost regions = Seq::new(partitions@.len(), |i: int| region16(partitions@[i]));
    let mut out: Vec<StrategyAssignment> = Vec::new();
    let mut k: usize = 0;
    assert(2 * xs == xsize_blocks_8 && 2 * ys == ysize_blocks_8);
    assert(placements(out@) =~= layout(regions.take(0), xs as int, 2));
    while k < n
        invariant
            n == xs * ys,
            n == partitions@.len(),
            2 * xs == xsize_blocks_8,
            2 * ys == ysize_blocks_8,
            regions == Seq::new(partitions@.len(), |i: int| region16(partitions@[i])),
            k <= n,
            placements(out@) == layout(regions.take(k as int), xs as int, 2),
        decreases n - k,
    {
        proof {
            lemma_cell_of_index(xs as int, ys as int, k as int);
            assert(regions.take(k + 1).drop_last() =~= regions.take(k as int));
            assert(regions.take(k + 1).last() == region16(partitions@[k as int]));
        }
        place_region16(&mut out, partitions[k], (k % xs) * 2, (k / xs) * 2);
        k = k + 1;
    }
    assert(regions.take(n as int) =~= regions);
    out
}

/// The transforms of an image split into 32x32 regions, region by region in
/// row-major order. The numbers of 8x8 blocks are multiples of four.
pub fn partitions_32x32_to_assignments(
    partitions: &[Partition32x32],
    xsize_blocks_8: usize,
    ysize_blocks_8: usize,
) -> (r: Vec<StrategyAssignment>)
    requires
        xsize_blocks_8 % 4 == 0,
        ysize_blocks_8 % 4 == 0,
        partitions@.len() == (xsize_blocks_8 / 4) * (ysize_blocks_8 / 4),
    ensures
        placements(r@) == layout(
            Seq::new(partitions@.len(), |i: int| region32(partitions@[i])),
            xsize_blocks_8 as int / 4,
            4,
        ),
{
    let xs: usize = xsize_blocks_8 / 4;
    let ys: usize = ysize_blocks_8 / 4;
    let n: usize = partitions.len();
    let ghost regions = Seq::new(partitions@.len(), |i: int| region32(partitions@[i]));
    let mut out: Vec<StrategyAssignment> = Vec::new();
    let mut k: usize = 0;
    assert(4 * xs == xsize_blocks_8 && 4 * ys == ysize_blocks_8);
    assert(placements(out@) =~= layout(regions.take(0), xs as int, 4));
    while k < n
        invariant
            n == xs * ys,
            n == partitions@.len(),
            4 * xs == xsize_blocks_8,
            4 * ys == ysize_blocks_8,
            regions == Seq::new(partitions@.len(), |i: int| region32(partitions@[i])),
            k <= n,
            placements(out@) == layout(regions.take(k as int), xs as int, 4),
        decreases n - k,
    {
        proof {
            lemma_cell_of_index(xs as int, ys as int, k as int);
            assert(regions.take(k + 1).drop_last() =~= regions.take(k as int));
            assert(regions.take(k + 1).last() == region32(partitions@[k as int]));
        }
        place_region32(&mut out, partitions[k], (k % xs) * 4, (k / xs) * 4);
        k = k + 1;
    }
    assert(regions.take(n as int) =~= regions);
    out
}

/// The transforms of an image split into 64x64 regions, region by region in
/// row-major order. The numbers of 8x8 blocks are multiples of eight.
pub fn partitions_64x64_to_assignments(
    partitions: &[Partition64x64],
    xsize_blocks_8: usize,
    ysize_blocks_8: usize,
) -> (r: Vec<StrategyAssignment>)
    requires
        xsize_blocks_8 % 8 == 0,
        ysize_blocks_8 % 8 == 0,
        partitions@.len() == (xsize_blocks_8 / 8) * (ysize_blocks_8 / 8),
    ensures
        placements(r@) == layout(
            Seq::new(partitions@.len(), |i: int| region64(partitions@[i])),
            xsize_blocks_8 as int / 8,
            8,
        ),
{
    let xs: usize = xsize_blocks_8 / 8;
    let ys: usize = ysize_blocks_8 / 8;
    let n: usize = partitions.len();
    let ghost regions = Seq::new(partitions@.len(), |i: int| region64(partitions@[i]));
    let mut out: Vec<StrategyAssignment> = Vec::new();
    let mut k: usize = 0;
    assert(8 * xs == xsize_blocks_8 && 8 * ys == ysize_blocks_8);
    assert(placements(out@) =~= layout(regions.take(0), xs as int, 8));
    while k < n
        invariant
            n == xs * ys,
            n == partitions@.len(),
            8 * xs == xsize_blocks_8,
            8 * ys == ysize_blocks_8,
            regions == Seq::new(partitions@.len(), |i: int| region64(partitions@[i])),
            k <= n,
            placements(out@) == layout(regions.take(k as int), xs as int, 8),
        decreases n - k,
    {
        proof {
            lemma_cell_of_index(xs as int, ys as int, k as int);
            assert(regions.take(k + 1).drop_last() =~= regions.take(k as int));
            assert(regions.take(k + 1).last() == region64(partitions@[k as int]));
        }
        place_region64(&mut out, partitions[k], (k % xs) * 8, (k / xs) * 8);
        k = k + 1;
    }
    assert(regions.take(n as int) =~= regions);
    out
}

/// The positions of one transform, in the order of the assignments.
pub open spec fn positions(assignments: Seq<StrategyAssignment>, raw_strategy: u8) -> Seq<
    (usize, usize),
>
    decreases assignments.len(),
{
    if assignments.len() == 0 {
        Seq::empty()
    } else {
        let a = assignments.last();
        let before = positions(assignments.drop_last(), raw_strategy);
        if a.raw_strategy == raw_strategy {
            before.push((a.bx, a.by))
        } else {
            before
        }
    }
}

fn collect_positions(assignments: &[StrategyAssignment], raw_strategy: u8) -> (r: Vec<
    (usize, usize),
>)
    ensures
        r@ == positions(assignments@, raw_strategy),
{
    let mut out: Vec<(usize, usize)> = Vec::new();
    let mut k: usize = 0;
    while k < assignments.len()
        invariant
            k <= assignments@.len(),
            out@ == positions(assignments@.take(k as int), raw_strategy),
        decreases assignments@.len() - k,
    {
        let a: StrategyAssignment = assignments[k];
        proof {
            assert(assignments@.take(k + 1).drop_last() =~= assignments@.take(k as int));
        }
        if a.raw_strategy == raw_strategy {
            out.push((a.bx, a.by));
        }
        k = k + 1;
    }
    assert(assignments@.take(k as int) =~= assignments@);
    out
}

proof fn lemma_positions_empty(assignments: Seq<StrategyAssignment>, raw_strategy: u8)
    ensures
        positions(assignments, raw_strategy).len() == 0 <==> forall|k: int|
            0 <= k < assignments.len() ==> (#[trigger] assignments[k]).raw_strategy != raw_strategy,
    decreases assignments.len(),
{
    if assignments.len() > 0 {
        let before = assignments.drop_last();
        lemma_positions_empty(before, raw_strategy);
        assert(assignments.last() == assignments[assignments.len() - 1]);
        assert forall|k: int| 0 <= k < before.len() implies before[k] == assignments[k] by {}
        if positions(assignments, raw_strategy).len() == 0 {
            assert forall|k: int| 0 <= k < assignments.len() implies (
            #[trigger] assignments[k]).raw_strategy != raw_strategy by {
                if k < before.len() {
                    assert(before[k].raw_strategy != raw_strategy);
                }
            }
        }
    }
}

/// Whether one of the groups is for a transform.
pub open spec fn has_group(groups: Seq<(u8, Vec<(usize, usize)>)>, raw_strategy: u8) -> bool {
    exists|i: int| 0 <= i < groups.len() && (#[trigger] groups[i]).0 == raw_strategy
}

/// Which codes occur among the assignments.
fn codes_present(assignments: &[StrategyAssignment]) -> (r: Vec<bool>)
    ensures
        r@.len() == 256,
        forall|c: u8| #[trigger]
            r@[c as int] <==> exists|k: int|
                0 <= k < assignments@.len() && (#[trigger] assignments@[k]).raw_strategy == c,
{
    let mut present: Vec<bool> = vec![false; 256];
    let mut n: usize = 0;
    while n < assignments.len()
        invariant
            n <= assignments@.len(),
            present@.len() == 256,
            forall|c: u8| #[trigger]
                present@[c as int] <==> exists|k: int|
                    0 <= k < n && (#[trigger] assignments@[k]).raw_strategy == c,
        decreases assignments@.len() - n,
    {
        let raw: u8 = assignments[n].raw_strategy;
        let ghost before = present@;
        present.set(raw as usize, true);
        assert forall|c: u8| #[trigger] present@[c as int] <==> exists|k: int|
            0 <= k < n + 1 && (#[trigger] assignments@[k]).raw_strategy == c by {
            if c == raw {
                assert(assignments@[n as int].raw_strategy == c);
            } else {
                assert(present@[c as int] == before[c as int]);
            }
        }
        n = n + 1;
    }
    present
}

/// Groups the positions by transform, in ascending order of the codes. Within
/// a group the positions keep the order of the assignments. Transforms that
/// do not occur have no group.
pub fn group_assignments_by_strategy(assignments: &[StrategyAssignment]) -> (r: Vec<
    (u8, Vec<(usize, usize)>),
>)
    ensures
        forall|i: int, j: int|
            0 <= i < j < r@.len() ==> (#[trigger] r@[i]).0 < (#[trigger] r@[j]).0,
        forall|i: int|
            0 <= i < r@.len() ==> (#[trigger] r@[i]).1@ == positions(assignments@, r@[i].0)
                && r@[i].1@.len() > 0,
        forall|k: int|
            0 <= k < assignments@.len() ==> has_group(
                r@,
                (#[trigger] assignments@[k]).raw_strategy,
            ),
{
    let present: Vec<bool> = codes_present(assignments);
    let mut out: Vec<(u8, Vec<(usize, usize)>)> = Vec::new();
    let mut code: u16 = 0;
    while code < 256
        invariant
            code <= 256,
            present@.len() == 256,
            forall|c: u8| #[trigger]
                present@[c as int] <==> exists|k: int|
                    0 <= k < assignments@.len() && (#[trigger] assignments@[k]).raw_strategy == c,
            forall|i: int, j: int|
                0 <= i < j < out@.len() ==> (#[trigger] out@[i]).0 < (#[trigger] out@[j]).0,
            forall|i: int|
                0 <= i < out@.len() ==> (#[trigger] out@[i]).1@ == positions(
                    assignments@,
                    out@[i].0,
                ) && out@[i].1@.len() > 0 && out@[i].0 < code,
            forall|k: int|
                0 <= k < assignments@.len() && (#[trigger] assignments@[k]).raw_strategy < code
                    ==> has_group(out@, assignments@[k].raw_strategy),
        decreases 256 - code,
    {
        let ghost before = out@;
        let raw: u8 = code as u8;
        proof {
            lemma_positions_empty(assignments@, raw);
        }
        if present[code as usize] {
            let group: Vec<(usize, usize)> = collect_positions(assignments, raw);
            out.push((raw, group));
            assert(out@[before.len() as int].0 == raw);
        }
        assert forall|k: int|
            0 <= k < assignments@.len() && (#[trigger] assignments@[k]).raw_strategy < code
                + 1 implies has_group(out@, assignments@[k].raw_strategy) by {
            if assignments@[k].raw_strategy < code {
                let i = choose|i: int|
                    0 <= i < before.len() && (#[trigger] before[i]).0
                        == assignments@[k].raw_strategy;
                assert(out@[i] == before[i]);
            } else {
                assert(assignments@[k].raw_strategy == raw);
                assert(out@[before.len() as int].0 == raw);
            }
        }
        code = code + 1;
    }
    out
}

} // verus!

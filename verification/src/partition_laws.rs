//! What the partition selector promises of its choices.

use crate::float::{
    law_sum_is_monotone, lemma_finite_sum, lemma_units_increase, sum, units, Float32,
    INFINITY_MAGNITUDE,
};
use crate::partition::{
    better_if, cells_choice, choice16, choice32, choice32_of_parts, choice64, corner, entry,
    entry_or_infinity, four_regions16_cost, infinity, legal16, lemma_region, pair_across,
    pair_down, partition16_cost, partition32_cost, quarter_choices, region_choices, split64_cost,
    sub_block_partition, sub_choice16, sub_choice32, sub_cost16, sub_cost32, sum4, Grids16,
    Grids32, Grids64, Partition16x16, Partition32x32, Partition64x64, SubBlockGrids, SubStrategy,
};
use vstd::prelude::*;

verus! {

proof fn lemma_sum_operands(a: Float32, b: Float32)
    requires
        !sum(a, b).nan(),
    ensures
        !a.nan(),
        !b.nan(),
{
}

proof fn lemma_sum4_operands(a: Float32, b: Float32, c: Float32, d: Float32)
    requires
        !sum4(a, b, c, d).nan(),
    ensures
        !a.nan(),
        !b.nan(),
        !c.nan(),
        !d.nan(),
        !sum(a, b).nan(),
        !sum(sum(a, b), c).nan(),
{
    lemma_sum_operands(sum(sum(a, b), c), d);
    lemma_sum_operands(sum(a, b), c);
    lemma_sum_operands(a, b);
}

pub proof fn lemma_sum4_monotone(
    a: Float32,
    b: Float32,
    c: Float32,
    d: Float32,
    e: Float32,
    f: Float32,
    g: Float32,
    h: Float32,
)
    requires
        !sum4(a, b, c, d).nan(),
        !sum4(e, f, g, h).nan(),
        a.value() <= e.value(),
        b.value() <= f.value(),
        c.value() <= g.value(),
        d.value() <= h.value(),
    ensures
        sum4(a, b, c, d).value() <= sum4(e, f, g, h).value(),
{
    lemma_sum4_operands(a, b, c, d);
    lemma_sum4_operands(e, f, g, h);
    law_sum_is_monotone(a, b, e, f);
    law_sum_is_monotone(sum(a, b), c, sum(e, f), g);
    law_sum_is_monotone(sum(sum(a, b), c), d, sum(sum(e, f), g), h);
}

/// The transform picked for an 8x8 block is one that is considered, its cost
/// is the cost that goes with the choice, and no transform that is considered
/// costs less.
pub proof fn law_cell_choice_is_least(
    grids: SubBlockGrids,
    dct8: Seq<Float32>,
    i: int,
    s: SubStrategy,
)
    requires
        grids.considers(s),
        forall|t: SubStrategy| grids.considers(t) ==> !(#[trigger] grids.cost(dct8, t, i)).nan(),
    ensures
        grids.considers(grids.cell_choice(dct8, i).1),
        grids.cell_choice(dct8, i).0 == grids.cost(dct8, grids.cell_choice(dct8, i).1, i),
        !grids.cost(dct8, s, i).less(grids.cell_choice(dct8, i).0),
        grids.cell_choice(dct8, i).0.value() <= grids.cost(dct8, s, i).value(),
{
    assert(!grids.cost(dct8, SubStrategy::Dct8, i).nan());
    let c0 = (dct8[i], SubStrategy::Dct8);
    assert(
        grids.considers(SubStrategy::Dct4x4) ==> !grids.cost(dct8, SubStrategy::Dct4x4, i).nan()
    );
    let c1 = better_if(c0, entry(grids.dct4x4, i), SubStrategy::Dct4x4);
    lemma_better_if_least(c0, entry(grids.dct4x4, i), SubStrategy::Dct4x4);
    assert(
        grids.considers(SubStrategy::Dct4x8) ==> !grids.cost(dct8, SubStrategy::Dct4x8, i).nan()
    );
    let c2 = better_if(c1, entry(grids.dct4x8, i), SubStrategy::Dct4x8);
    lemma_better_if_least(c1, entry(grids.dct4x8, i), SubStrategy::Dct4x8);
    assert(
        grids.considers(SubStrategy::Dct8x4) ==> !grids.cost(dct8, SubStrategy::Dct8x4, i).nan()
    );
    let c3 = better_if(c2, entry(grids.dct8x4, i), SubStrategy::Dct8x4);
    lemma_better_if_least(c2, entry(grids.dct8x4, i), SubStrategy::Dct8x4);
    assert(
        grids.considers(SubStrategy::Identity) ==> !grids.cost(dct8, SubStrategy::Identity, i).nan()
    );
    let c4 = better_if(c3, entry(grids.identity, i), SubStrategy::Identity);
    lemma_better_if_least(c3, entry(grids.identity, i), SubStrategy::Identity);
    assert(
        grids.considers(SubStrategy::Dct2x2) ==> !grids.cost(dct8, SubStrategy::Dct2x2, i).nan()
    );
    let c5 = better_if(c4, entry(grids.dct2x2, i), SubStrategy::Dct2x2);
    lemma_better_if_least(c4, entry(grids.dct2x2, i), SubStrategy::Dct2x2);
    assert(grids.considers(SubStrategy::Afv0) ==> !grids.cost(dct8, SubStrategy::Afv0, i).nan());
    let c6 = better_if(c5, entry(grids.afv0, i), SubStrategy::Afv0);
    lemma_better_if_least(c5, entry(grids.afv0, i), SubStrategy::Afv0);
    assert(grids.considers(SubStrategy::Afv1) ==> !grids.cost(dct8, SubStrategy::Afv1, i).nan());
    let c7 = better_if(c6, entry(grids.afv1, i), SubStrategy::Afv1);
    lemma_better_if_least(c6, entry(grids.afv1, i), SubStrategy::Afv1);
    assert(grids.considers(SubStrategy::Afv2) ==> !grids.cost(dct8, SubStrategy::Afv2, i).nan());
    let c8 = better_if(c7, entry(grids.afv2, i), SubStrategy::Afv2);
    lemma_better_if_least(c7, entry(grids.afv2, i), SubStrategy::Afv2);
    assert(grids.considers(SubStrategy::Afv3) ==> !grids.cost(dct8, SubStrategy::Afv3, i).nan());
    let c9 = better_if(c8, entry(grids.afv3, i), SubStrategy::Afv3);
    lemma_better_if_least(c8, entry(grids.afv3, i), SubStrategy::Afv3);
    assert(c9 == grids.cell_choice(dct8, i));
    law_cell_choice_is_considered(grids, dct8, i);
}

proof fn lemma_better_if_least<T>(best: (Float32, T), cost: Option<Float32>, what: T)
    requires
        !best.0.nan(),
        cost matches Some(c) ==> !c.nan(),
    ensures
        !better_if(best, cost, what).0.nan(),
        better_if(best, cost, what).0.value() <= best.0.value(),
        cost matches Some(c) ==> better_if(best, cost, what).0.value() <= c.value(),
{
}

/// A block gets only a transform that is considered, at the cost of that
/// transform.
pub proof fn law_cell_choice_is_considered(grids: SubBlockGrids, dct8: Seq<Float32>, i: int)
    ensures
        grids.considers(grids.cell_choice(dct8, i).1),
        grids.cell_choice(dct8, i).0 == grids.cost(dct8, grids.cell_choice(dct8, i).1, i),
{
}

/// A partition is picked only if every transform in it is among those
/// considered, and the cost that the choice is made by is the cost of the
/// partition.
pub proof fn law_choice16_is_legal(
    dct8: Seq<Float32>,
    dct16: Seq<Float32>,
    extra: Grids16,
    xs8: int,
    rx: int,
    ry: int,
)
    ensures
        ({
            let choice = choice16(dct8, dct16, extra, xs8, rx, ry);
            &&& legal16(choice.1, extra)
            &&& partition16_cost(choice.1, dct8, dct16, extra, xs8, rx, ry) == choice.0
        }),
{
    reveal(choice16);
    reveal(partition16_cost);
    law_cell_choice_is_considered(extra.sub_blocks, dct8, corner(xs8, rx, ry, 0));
    law_cell_choice_is_considered(extra.sub_blocks, dct8, corner(xs8, rx, ry, 1));
    law_cell_choice_is_considered(extra.sub_blocks, dct8, corner(xs8, rx, ry, 2));
    law_cell_choice_is_considered(extra.sub_blocks, dct8, corner(xs8, rx, ry, 3));
}

/// The choice is the DCT16x16 unless some partition costs strictly less: a
/// tie goes to the larger transform. Where the choice is not the DCT16x16, it
/// is strictly cheaper.
pub proof fn law_choice16_keeps_larger_on_ties(
    dct8: Seq<Float32>,
    dct16: Seq<Float32>,
    extra: Grids16,
    xs8: int,
    rx: int,
    ry: int,
)
    ensures
        ({
            let choice = choice16(dct8, dct16, extra, xs8, rx, ry);
            choice.1 !is Dct16x16 ==> choice.0.less(
                partition16_cost(Partition16x16::Dct16x16, dct8, dct16, extra, xs8, rx, ry),
            )
        }),
{
    reveal(choice16);
    reveal(partition16_cost);
}

/// Four blocks with transforms of their own are never signalled as such when
/// all four are DCT8.
pub proof fn law_choice16_never_spells_out_four_dct8(
    dct8: Seq<Float32>,
    dct16: Seq<Float32>,
    extra: Grids16,
    xs8: int,
    rx: int,
    ry: int,
)
    ensures
        choice16(dct8, dct16, extra, xs8, rx, ry).1 matches Partition16x16::FourSubBlocks(subs)
            ==> exists|k: int| 0 <= k < 4 && subs@[k] != SubStrategy::Dct8,
{
    reveal(choice16);
    let cells = cells_choice(dct8, extra.sub_blocks, xs8, rx, ry);
    if let Partition16x16::FourSubBlocks(subs) = choice16(dct8, dct16, extra, xs8, rx, ry).1 {
        assert(subs == cells.1);
        assert(sub_block_partition(cells.1) is FourSubBlocks);
        assert(subs@[0] != SubStrategy::Dct8 || subs@[1] != SubStrategy::Dct8 || subs@[2]
            != SubStrategy::Dct8 || subs@[3] != SubStrategy::Dct8);
    }
}

/// No legal partition of a 16x16 region costs less than the one picked, where
/// no cost is a NaN.
pub proof fn law_choice16_is_least(
    dct8: Seq<Float32>,
    dct16: Seq<Float32>,
    extra: Grids16,
    xs8: int,
    rx: int,
    ry: int,
    p: Partition16x16,
)
    requires
        legal16(p, extra),
        forall|q: Partition16x16|
            legal16(q, extra) ==> !(#[trigger] partition16_cost(
                q,
                dct8,
                dct16,
                extra,
                xs8,
                rx,
                ry,
            )).nan(),
    ensures
        !partition16_cost(p, dct8, dct16, extra, xs8, rx, ry).less(
            choice16(dct8, dct16, extra, xs8, rx, ry).0,
        ),
        !choice16(dct8, dct16, extra, xs8, rx, ry).0.nan(),
        choice16(dct8, dct16, extra, xs8, rx, ry).0.value() <= partition16_cost(
            p,
            dct8,
            dct16,
            extra,
            xs8,
            rx,
            ry,
        ).value(),
{
    let grids = extra.sub_blocks;
    law_choice16_is_legal(dct8, dct16, extra, xs8, rx, ry);
    let one = partition16_cost(Partition16x16::Dct16x16, dct8, dct16, extra, xs8, rx, ry);
    let across = partition16_cost(
        Partition16x16::TwoDct16x8Horizontal,
        dct8,
        dct16,
        extra,
        xs8,
        rx,
        ry,
    );
    let down = partition16_cost(
        Partition16x16::TwoDct8x16Vertical,
        dct8,
        dct16,
        extra,
        xs8,
        rx,
        ry,
    );
    let four = partition16_cost(Partition16x16::FourDct8x8, dct8, dct16, extra, xs8, rx, ry);
    assert(!one.nan() && !four.nan());
    assert(extra.dct_16x8 is Some ==> !across.nan());
    assert(extra.dct_8x16 is Some ==> !down.nan());
    let cells = cells_choice(dct8, grids, xs8, rx, ry);
    let picked = Partition16x16::FourSubBlocks(cells.1);
    let i0 = corner(xs8, rx, ry, 0);
    let i1 = corner(xs8, rx, ry, 1);
    let i2 = corner(xs8, rx, ry, 2);
    let i3 = corner(xs8, rx, ry, 3);
    law_cell_choice_is_considered(grids, dct8, i0);
    law_cell_choice_is_considered(grids, dct8, i1);
    law_cell_choice_is_considered(grids, dct8, i2);
    law_cell_choice_is_considered(grids, dct8, i3);
    assert(legal16(picked, extra));
    let picked_cost = partition16_cost(picked, dct8, dct16, extra, xs8, rx, ry);
    assert(!picked_cost.nan());
    assert(picked_cost == cells.0) by {
        reveal(partition16_cost);
    }
    assert forall|t: SubStrategy| #[trigger] grids.considers(t) implies !grids.cost(
        dct8,
        t,
        i0,
    ).nan()
        && !grids.cost(dct8, t, i1).nan() && !grids.cost(dct8, t, i2).nan() && !grids.cost(
        dct8,
        t,
        i3,
    ).nan() by {
        let q = Partition16x16::FourSubBlocks([t, t, t, t]);
        assert(legal16(q, extra));
        assert(!partition16_cost(q, dct8, dct16, extra, xs8, rx, ry).nan());
        reveal(partition16_cost);
        lemma_sum4_operands(
            grids.cost(dct8, t, i0),
            grids.cost(dct8, t, i1),
            grids.cost(dct8, t, i2),
            grids.cost(dct8, t, i3),
        );
    }
    if let Partition16x16::FourSubBlocks(subs) = p {
        let cost = partition16_cost(p, dct8, dct16, extra, xs8, rx, ry);
        assert(!cost.nan());
        law_cell_choice_is_least(grids, dct8, i0, subs@[0]);
        law_cell_choice_is_least(grids, dct8, i1, subs@[1]);
        law_cell_choice_is_least(grids, dct8, i2, subs@[2]);
        law_cell_choice_is_least(grids, dct8, i3, subs@[3]);
        assert(cost == sum4(
            grids.cost(dct8, subs@[0], i0),
            grids.cost(dct8, subs@[1], i1),
            grids.cost(dct8, subs@[2], i2),
            grids.cost(dct8, subs@[3], i3),
        )) by {
            reveal(partition16_cost);
        }
        lemma_sum4_monotone(
            grids.cell_choice(dct8, i0).0,
            grids.cell_choice(dct8, i1).0,
            grids.cell_choice(dct8, i2).0,
            grids.cell_choice(dct8, i3).0,
            grids.cost(dct8, subs@[0], i0),
            grids.cost(dct8, subs@[1], i1),
            grids.cost(dct8, subs@[2], i2),
            grids.cost(dct8, subs@[3], i3),
        );
        assert(cells.0.value() <= cost.value());
        if !grids.some() {
            assert(cost == four) by {
                reveal(partition16_cost);
            }
        }
    }
    reveal(choice16);
    reveal(partition16_cost);
}

/// Whether every transform of a partition is among those considered.
pub open spec fn legal32(
    p: Partition32x32,
    extra: Grids32,
    extra16: Grids16,
) -> bool {
    match p {
        Partition32x32::Dct32x32 => true,
        Partition32x32::TwoDct32x16Horizontal => extra.dct_32x16 is Some,
        Partition32x32::TwoDct16x32Vertical => extra.dct_16x32 is Some,
        Partition32x32::Sub16x16(subs) => legal16(subs@[0], extra16) && legal16(subs@[1], extra16)
            && legal16(subs@[2], extra16) && legal16(subs@[3], extra16),
    }
}

/// A partition of a 32x32 region is picked only if every transform in it is
/// among those considered, the cost that the choice is made by is its cost,
/// and where the choice is not the DCT32x32 it is strictly cheaper.
pub proof fn law_choice32_is_legal(
    dct8: Seq<Float32>,
    dct16: Seq<Float32>,
    dct32: Seq<Float32>,
    extra: Grids32,
    extra16: Grids16,
    xs8: int,
    rx: int,
    ry: int,
)
    ensures
        ({
            let choice = choice32(dct8, dct16, dct32, extra, extra16, xs8, rx, ry);
            &&& legal32(choice.1, extra, extra16)
            &&& partition32_cost(choice.1, dct8, dct16, dct32, extra, extra16, xs8, rx, ry)
                == choice.0
            &&& choice.1 !is Dct32x32 ==> choice.0.less(
                partition32_cost(
                    Partition32x32::Dct32x32,
                    dct8,
                    dct16,
                    dct32,
                    extra,
                    extra16,
                    xs8,
                    rx,
                    ry,
                ),
            )
        }),
{
    reveal(choice32);
    law_choice16_is_legal(dct8, dct16, extra16, xs8, 2 * rx, 2 * ry);
    law_choice16_is_legal(dct8, dct16, extra16, xs8, 2 * rx + 1, 2 * ry);
    law_choice16_is_legal(dct8, dct16, extra16, xs8, 2 * rx, 2 * ry + 1);
    law_choice16_is_legal(dct8, dct16, extra16, xs8, 2 * rx + 1, 2 * ry + 1);
}

/// Where DCT32x32 is not considered, a partition of a 32x32 region is picked
/// only if every transform in it is among those considered, and the cost that
/// the choice is made by is its cost.
pub proof fn law_choice32_of_parts_is_legal(
    dct8: Seq<Float32>,
    dct16: Seq<Float32>,
    extra: Grids32,
    extra16: Grids16,
    xs8: int,
    rx: int,
    ry: int,
)
    ensures
        ({
            let choice = choice32_of_parts(dct8, dct16, extra, extra16, xs8, rx, ry);
            &&& choice.1 !is Dct32x32
            &&& legal32(choice.1, extra, extra16)
            &&& forall|dct32: Seq<Float32>| #[trigger]
                partition32_cost(choice.1, dct8, dct16, dct32, extra, extra16, xs8, rx, ry)
                    == choice.0
        }),
{
    reveal(choice32_of_parts);
    law_choice16_is_legal(dct8, dct16, extra16, xs8, 2 * rx, 2 * ry);
    law_choice16_is_legal(dct8, dct16, extra16, xs8, 2 * rx + 1, 2 * ry);
    law_choice16_is_legal(dct8, dct16, extra16, xs8, 2 * rx, 2 * ry + 1);
    law_choice16_is_legal(dct8, dct16, extra16, xs8, 2 * rx + 1, 2 * ry + 1);
}

/// No legal partition of a 32x32 region costs less than the one picked, where
/// no cost is a NaN.
pub proof fn law_choice32_is_least(
    dct8: Seq<Float32>,
    dct16: Seq<Float32>,
    dct32: Seq<Float32>,
    extra: Grids32,
    extra16: Grids16,
    xs8: int,
    rx: int,
    ry: int,
    p: Partition32x32,
)
    requires
        legal32(p, extra, extra16),
        forall|q: Partition32x32|
            legal32(q, extra, extra16) ==> !(#[trigger] partition32_cost(
                q,
                dct8,
                dct16,
                dct32,
                extra,
                extra16,
                xs8,
                rx,
                ry,
            )).nan(),
    ensures
        !partition32_cost(p, dct8, dct16, dct32, extra, extra16, xs8, rx, ry).less(
            choice32(dct8, dct16, dct32, extra, extra16, xs8, rx, ry).0,
        ),
        !choice32(dct8, dct16, dct32, extra, extra16, xs8, rx, ry).0.nan(),
{
    let cost = |q: Partition32x32|
        partition32_cost(q, dct8, dct16, dct32, extra, extra16, xs8, rx, ry);
    law_choice32_is_legal(dct8, dct16, dct32, extra, extra16, xs8, rx, ry);
    let subs = region_choices(dct8, dct16, extra16, xs8, rx, ry);
    law_choice16_is_legal(dct8, dct16, extra16, xs8, 2 * rx, 2 * ry);
    law_choice16_is_legal(dct8, dct16, extra16, xs8, 2 * rx + 1, 2 * ry);
    law_choice16_is_legal(dct8, dct16, extra16, xs8, 2 * rx, 2 * ry + 1);
    law_choice16_is_legal(dct8, dct16, extra16, xs8, 2 * rx + 1, 2 * ry + 1);
    let split = Partition32x32::Sub16x16(subs);
    assert(legal32(split, extra, extra16));
    assert(!cost(split).nan());
    assert(!cost(Partition32x32::Dct32x32).nan());
    assert(extra.dct_32x16 is Some ==> !cost(Partition32x32::TwoDct32x16Horizontal).nan());
    assert(extra.dct_16x32 is Some ==> !cost(Partition32x32::TwoDct16x32Vertical).nan());
    if let Partition32x32::Sub16x16(other) = p {
        lemma_split_least(dct8, dct16, dct32, extra, extra16, xs8, rx, ry, other);
    }
    reveal(choice32);
}

proof fn lemma_quarter_least(
    dct8: Seq<Float32>,
    dct16: Seq<Float32>,
    extra16: Grids16,
    xs8: int,
    rx: int,
    ry: int,
    k: int,
    p: Partition16x16,
)
    requires
        0 <= k < 4,
        legal16(p, extra16),
        forall|q: Partition16x16|
            legal16(q, extra16) ==> !(#[trigger] sub_cost16(
                q,
                dct8,
                dct16,
                extra16,
                xs8,
                rx,
                ry,
                k,
            )).nan(),
    ensures
        sub_cost16(
            sub_choice16(dct8, dct16, extra16, xs8, rx, ry, k),
            dct8,
            dct16,
            extra16,
            xs8,
            rx,
            ry,
            k,
        ).value() <= sub_cost16(p, dct8, dct16, extra16, xs8, rx, ry, k).value(),
{
    let x = 2 * rx + k % 2;
    let y = 2 * ry + k / 2;
    assert forall|q: Partition16x16| legal16(q, extra16) implies !(#[trigger] partition16_cost(
        q,
        dct8,
        dct16,
        extra16,
        xs8,
        x,
        y,
    )).nan() by {
        assert(!sub_cost16(q, dct8, dct16, extra16, xs8, rx, ry, k).nan());
    }
    law_choice16_is_least(dct8, dct16, extra16, xs8, x, y, p);
    law_choice16_is_legal(dct8, dct16, extra16, xs8, x, y);
}

/// Whether every transform of a partition is among those considered.
pub open spec fn legal64(
    p: Partition64x64,
    extra32: Grids32,
    extra64: Grids64,
    extra16: Grids16,
) -> bool {
    match p {
        Partition64x64::Dct64x64 => true,
        Partition64x64::TwoDct64x32Horizontal => extra64.dct_64x32 is Some,
        Partition64x64::TwoDct32x64Vertical => extra64.dct_32x64 is Some,
        Partition64x64::Sub32x32(subs) => legal32(subs@[0], extra32, extra16) && legal32(
            subs@[1],
            extra32,
            extra16,
        ) && legal32(subs@[2], extra32, extra16) && legal32(subs@[3], extra32, extra16),
    }
}

/// The cost of a partition of the 64x64 region at (`rx`, `ry`); infinite where
/// it needs a grid that is absent.
pub open spec fn partition64_cost(
    p: Partition64x64,
    dct8: Seq<Float32>,
    dct16: Seq<Float32>,
    dct32: Seq<Float32>,
    dct64: Seq<Float32>,
    extra32: Grids32,
    extra64: Grids64,
    extra16: Grids16,
    xs8: int,
    rx: int,
    ry: int,
) -> Float32 {
    match p {
        Partition64x64::Dct64x64 => dct64[ry * (xs8 / 8) + rx],
        Partition64x64::TwoDct64x32Horizontal => match pair_across(
            extra64.dct_64x32,
            xs8 / 4,
            rx,
            ry,
        ) {
            Some(c) => c,
            None => infinity(),
        },
        Partition64x64::TwoDct32x64Vertical => match pair_down(
            extra64.dct_32x64,
            xs8 / 8,
            rx,
            ry,
        ) {
            Some(c) => c,
            None => infinity(),
        },
        Partition64x64::Sub32x32(subs) => split64_cost(
            subs,
            dct8,
            dct16,
            dct32,
            extra32,
            extra16,
            xs8,
            rx,
            ry,
        ),
    }
}

/// A partition of a 64x64 region is picked only if every transform in it is
/// among those considered, the cost that the choice is made by is its cost,
/// and where the choice is not the DCT64x64 it is strictly cheaper.
pub proof fn law_choice64_is_legal(
    dct8: Seq<Float32>,
    dct16: Seq<Float32>,
    dct32: Seq<Float32>,
    dct64: Seq<Float32>,
    extra32: Grids32,
    extra64: Grids64,
    extra16: Grids16,
    xs8: int,
    rx: int,
    ry: int,
)
    ensures
        ({
            let choice = choice64(
                dct8,
                dct16,
                dct32,
                dct64,
                extra32,
                extra64,
                extra16,
                xs8,
                rx,
                ry,
            );
            &&& legal64(choice.1, extra32, extra64, extra16)
            &&& partition64_cost(
                choice.1,
                dct8,
                dct16,
                dct32,
                dct64,
                extra32,
                extra64,
                extra16,
                xs8,
                rx,
                ry,
            ) == choice.0
            &&& choice.1 !is Dct64x64 ==> choice.0.less(dct64[ry * (xs8 / 8) + rx])
        }),
{
    reveal(choice64);
    law_choice32_is_legal(dct8, dct16, dct32, extra32, extra16, xs8, 2 * rx, 2 * ry);
    law_choice32_is_legal(dct8, dct16, dct32, extra32, extra16, xs8, 2 * rx + 1, 2 * ry);
    law_choice32_is_legal(dct8, dct16, dct32, extra32, extra16, xs8, 2 * rx, 2 * ry + 1);
    law_choice32_is_legal(dct8, dct16, dct32, extra32, extra16, xs8, 2 * rx + 1, 2 * ry + 1);
}

/// No legal partition of a 64x64 region costs less than the one picked, where
/// no cost is a NaN.
pub proof fn law_choice64_is_least(
    dct8: Seq<Float32>,
    dct16: Seq<Float32>,
    dct32: Seq<Float32>,
    dct64: Seq<Float32>,
    extra32: Grids32,
    extra64: Grids64,
    extra16: Grids16,
    xs8: int,
    rx: int,
    ry: int,
    p: Partition64x64,
)
    requires
        legal64(p, extra32, extra64, extra16),
        forall|q: Partition64x64|
            legal64(q, extra32, extra64, extra16) ==> !(#[trigger] partition64_cost(
                q,
                dct8,
                dct16,
                dct32,
                dct64,
                extra32,
                extra64,
                extra16,
                xs8,
                rx,
                ry,
            )).nan(),
    ensures
        !partition64_cost(
            p,
            dct8,
            dct16,
            dct32,
            dct64,
            extra32,
            extra64,
            extra16,
            xs8,
            rx,
            ry,
        ).less(
            choice64(dct8, dct16, dct32, dct64, extra32, extra64, extra16, xs8, rx, ry).0,
        ),
{
    let cost = |q: Partition64x64|
        partition64_cost(
            q,
            dct8,
            dct16,
            dct32,
            dct64,
            extra32,
            extra64,
            extra16,
            xs8,
            rx,
            ry,
        );
    let choice = choice64(dct8, dct16, dct32, dct64, extra32, extra64, extra16, xs8, rx, ry);
    let subs = quarter_choices(dct8, dct16, dct32, extra32, extra16, xs8, rx, ry);
    let split = Partition64x64::Sub32x32(subs);
    law_choice32_is_legal(dct8, dct16, dct32, extra32, extra16, xs8, 2 * rx, 2 * ry);
    law_choice32_is_legal(dct8, dct16, dct32, extra32, extra16, xs8, 2 * rx + 1, 2 * ry);
    law_choice32_is_legal(dct8, dct16, dct32, extra32, extra16, xs8, 2 * rx, 2 * ry + 1);
    law_choice32_is_legal(dct8, dct16, dct32, extra32, extra16, xs8, 2 * rx + 1, 2 * ry + 1);
    assert(legal64(split, extra32, extra64, extra16));
    assert(!cost(split).nan());
    assert(!cost(Partition64x64::Dct64x64).nan());
    assert(extra64.dct_64x32 is Some ==> !cost(Partition64x64::TwoDct64x32Horizontal).nan());
    assert(extra64.dct_32x64 is Some ==> !cost(Partition64x64::TwoDct32x64Vertical).nan());
    reveal(choice64);
    assert(!cost(split).less(choice.0));
    if let Partition64x64::Sub32x32(other) = p {
        assert forall|q: Partition32x32, k: int|
            legal32(q, extra32, extra16) && 0 <= k < 4 implies !(#[trigger] sub_cost32(
            q,
            dct8,
            dct16,
            dct32,
            extra32,
            extra16,
            xs8,
            rx,
            ry,
            k,
        )).nan() by {
            let all = Partition64x64::Sub32x32([q, q, q, q]);
            assert(legal64(all, extra32, extra64, extra16));
            assert(!cost(all).nan());
            lemma_sum4_operands(
                sub_cost32(q, dct8, dct16, dct32, extra32, extra16, xs8, rx, ry, 0),
                sub_cost32(q, dct8, dct16, dct32, extra32, extra16, xs8, rx, ry, 1),
                sub_cost32(q, dct8, dct16, dct32, extra32, extra16, xs8, rx, ry, 2),
                sub_cost32(q, dct8, dct16, dct32, extra32, extra16, xs8, rx, ry, 3),
            );
            assert(k == 0 || k == 1 || k == 2 || k == 3);
        }
        lemma_quarter32_least(dct8, dct16, dct32, extra32, extra16, xs8, rx, ry, 0, other@[0]);
        lemma_quarter32_least(dct8, dct16, dct32, extra32, extra16, xs8, rx, ry, 1, other@[1]);
        lemma_quarter32_least(dct8, dct16, dct32, extra32, extra16, xs8, rx, ry, 2, other@[2]);
        lemma_quarter32_least(dct8, dct16, dct32, extra32, extra16, xs8, rx, ry, 3, other@[3]);
        assert(!cost(p).nan());
        lemma_sum4_monotone(
            sub_cost32(subs@[0], dct8, dct16, dct32, extra32, extra16, xs8, rx, ry, 0),
            sub_cost32(subs@[1], dct8, dct16, dct32, extra32, extra16, xs8, rx, ry, 1),
            sub_cost32(subs@[2], dct8, dct16, dct32, extra32, extra16, xs8, rx, ry, 2),
            sub_cost32(subs@[3], dct8, dct16, dct32, extra32, extra16, xs8, rx, ry, 3),
            sub_cost32(other@[0], dct8, dct16, dct32, extra32, extra16, xs8, rx, ry, 0),
            sub_cost32(other@[1], dct8, dct16, dct32, extra32, extra16, xs8, rx, ry, 1),
            sub_cost32(other@[2], dct8, dct16, dct32, extra32, extra16, xs8, rx, ry, 2),
            sub_cost32(other@[3], dct8, dct16, dct32, extra32, extra16, xs8, rx, ry, 3),
        );
        assert(cost(split).value() <= cost(p).value());
    }
}

proof fn lemma_quarter32_least(
    dct8: Seq<Float32>,
    dct16: Seq<Float32>,
    dct32: Seq<Float32>,
    extra32: Grids32,
    extra16: Grids16,
    xs8: int,
    rx: int,
    ry: int,
    k: int,
    p: Partition32x32,
)
    requires
        0 <= k < 4,
        legal32(p, extra32, extra16),
        forall|q: Partition32x32|
            legal32(q, extra32, extra16) ==> !(#[trigger] sub_cost32(
                q,
                dct8,
                dct16,
                dct32,
                extra32,
                extra16,
                xs8,
                rx,
                ry,
                k,
            )).nan(),
    ensures
        sub_cost32(
            sub_choice32(dct8, dct16, dct32, extra32, extra16, xs8, rx, ry, k),
            dct8,
            dct16,
            dct32,
            extra32,
            extra16,
            xs8,
            rx,
            ry,
            k,
        ).value() <= sub_cost32(
            p,
            dct8,
            dct16,
            dct32,
            extra32,
            extra16,
            xs8,
            rx,
            ry,
            k,
        ).value(),
{
    let x = 2 * rx + k % 2;
    let y = 2 * ry + k / 2;
    assert forall|q: Partition32x32| legal32(q, extra32, extra16) implies !(
    #[trigger] partition32_cost(q, dct8, dct16, dct32, extra32, extra16, xs8, x, y)).nan() by {
        assert(!sub_cost32(q, dct8, dct16, dct32, extra32, extra16, xs8, rx, ry, k).nan());
    }
    law_choice32_is_least(dct8, dct16, dct32, extra32, extra16, xs8, x, y, p);
    law_choice32_is_legal(dct8, dct16, dct32, extra32, extra16, xs8, x, y);
    assert(!sub_cost32(p, dct8, dct16, dct32, extra32, extra16, xs8, rx, ry, k).nan());
}

/// Whether every cost of a grid is a finite number; so where the grid is
/// absent.
pub open spec fn finite_costs(grid: Option<Seq<Float32>>) -> bool {
    grid matches Some(g) ==> forall|i: int| 0 <= i < g.len() ==> (#[trigger] g[i]).finite()
}

/// Whether no cost of a grid is below zero; so where the grid is absent.
pub open spec fn nonnegative_costs(grid: Option<Seq<Float32>>) -> bool {
    grid matches Some(g) ==> forall|i: int| 0 <= i < g.len() ==> (#[trigger] g[i]).value() >= 0
}

impl SubBlockGrids {
    /// Whether every cost is a finite number.
    pub open spec fn finite(self) -> bool {
        &&& finite_costs(self.dct4x4)
        &&& finite_costs(self.dct4x8)
        &&& finite_costs(self.dct8x4)
        &&& finite_costs(self.identity)
        &&& finite_costs(self.dct2x2)
        &&& finite_costs(self.afv0)
        &&& finite_costs(self.afv1)
        &&& finite_costs(self.afv2)
        &&& finite_costs(self.afv3)
    }

    /// Whether no cost is below zero.
    pub open spec fn nonnegative(self) -> bool {
        &&& nonnegative_costs(self.dct4x4)
        &&& nonnegative_costs(self.dct4x8)
        &&& nonnegative_costs(self.dct8x4)
        &&& nonnegative_costs(self.identity)
        &&& nonnegative_costs(self.dct2x2)
        &&& nonnegative_costs(self.afv0)
        &&& nonnegative_costs(self.afv1)
        &&& nonnegative_costs(self.afv2)
        &&& nonnegative_costs(self.afv3)
    }
}

/// Whether the grids for the 16x16 regions of an image of `xs8` by `ys8` 8x8
/// blocks have their sizes, and every cost is a finite number.
pub open spec fn finite_region_costs(
    dct8: Seq<Float32>,
    dct16: Seq<Float32>,
    extra: Grids16,
    xs8: int,
    ys8: int,
) -> bool {
    &&& xs8 % 2 == 0 && ys8 % 2 == 0
    &&& dct8.len() == xs8 * ys8
    &&& dct16.len() == (xs8 / 2) * (ys8 / 2)
    &&& extra.fits(xs8, ys8)
    &&& finite_costs(Some(dct8))
    &&& finite_costs(Some(dct16))
    &&& finite_costs(extra.dct_16x8)
    &&& finite_costs(extra.dct_8x16)
    &&& extra.sub_blocks.finite()
}

proof fn lemma_sum_with_finite(a: Float32, b: Float32)
    requires
        !a.nan(),
        b.finite() || (b == infinity() && a.value() >= 0),
    ensures
        !sum(a, b).nan(),
        a.value() >= 0 && b.value() >= 0 ==> sum(a, b).value() >= 0,
        a == infinity() || b == infinity() ==> sum(a, b) == infinity(),
{
    assert(units(0) == 0);
    lemma_units_increase(0, INFINITY_MAGNITUDE as nat);
    if a.finite() && b.finite() {
        lemma_finite_sum(a, b);
    }
}

/// Infinity stays in a sum with finite numbers and more of its kind, and what
/// is no number stays none.
proof fn lemma_sum_keeps_infinity(a: Float32, b: Float32)
    requires
        b.finite() || b == infinity(),
    ensures
        a.nan() ==> sum(a, b).nan(),
        a == infinity() ==> sum(a, b) == infinity(),
        b == infinity() ==> sum(a, b) == infinity() || sum(a, b).nan(),
{
}

/// Where the parts of a 16x16 region stand in the grids.
proof fn lemma_places16(xs8: int, ys8: int, rx: int, ry: int)
    requires
        xs8 % 2 == 0,
        ys8 % 2 == 0,
        0 <= rx < xs8 / 2,
        0 <= ry < ys8 / 2,
    ensures
        0 <= ry * (xs8 / 2) + rx < (xs8 / 2) * (ys8 / 2),
        0 <= ry * xs8 + 2 * rx,
        ry * xs8 + 2 * rx + 1 < xs8 * (ys8 / 2),
        0 <= 2 * ry * (xs8 / 2) + rx < (xs8 / 2) * ys8,
        0 <= (2 * ry + 1) * (xs8 / 2) + rx < (xs8 / 2) * ys8,
        forall|k: int| 0 <= k < 4 ==> 0 <= #[trigger] corner(xs8, rx, ry, k) < xs8 * ys8,
{
    let xr = xs8 / 2;
    let yr = ys8 / 2;
    assert(xs8 == 2 * xr && ys8 == 2 * yr);
    lemma_region(xr, yr, rx, ry);
    assert forall|k: int| 0 <= k < 4 implies 0 <= #[trigger] corner(xs8, rx, ry, k) < xs8
        * ys8 by {
        assert(k == 0 || k == 1 || k == 2 || k == 3);
        assert((2 * ry + 0) * xs8 == (2 * ry) * (2 * xr));
        assert((2 * ry + 1) * xs8 == (2 * ry + 1) * (2 * xr));
    }
}

proof fn lemma_entry(g: Seq<Float32>, i: int)
    requires
        finite_costs(Some(g)),
        0 <= i < g.len(),
    ensures
        g[i].finite(),
        nonnegative_costs(Some(g)) ==> g[i].value() >= 0,
{
    let grid = Some(g);
    assert(grid matches Some(h) ==> h == g);
}

proof fn lemma_offered_entry(grid: Option<Seq<Float32>>, i: int)
    requires
        finite_costs(grid),
        grid matches Some(g) ==> 0 <= i < g.len(),
    ensures
        grid is Some ==> entry_or_infinity(grid, i).finite(),
        grid is None ==> entry_or_infinity(grid, i) == infinity(),
        nonnegative_costs(grid) ==> entry_or_infinity(grid, i).value() >= 0,
{
    lemma_units_increase(0, INFINITY_MAGNITUDE as nat);
    if let Some(g) = grid {
        lemma_entry(g, i);
    }
}

proof fn lemma_cell_cost(grids: SubBlockGrids, dct8: Seq<Float32>, s: SubStrategy, i: int)
    requires
        finite_costs(Some(dct8)),
        grids.finite(),
        0 <= i < dct8.len(),
        grids.reaches(dct8.len() as int),
    ensures
        grids.considers(s) ==> grids.cost(dct8, s, i).finite(),
        !grids.considers(s) ==> grids.cost(dct8, s, i) == infinity(),
        nonnegative_costs(Some(dct8)) && grids.nonnegative() ==> grids.cost(dct8, s, i).value()
            >= 0,
{
    match s {
        SubStrategy::Dct8 => lemma_entry(dct8, i),
        SubStrategy::Dct4x4 => lemma_offered_entry(grids.dct4x4, i),
        SubStrategy::Dct4x8 => lemma_offered_entry(grids.dct4x8, i),
        SubStrategy::Dct8x4 => lemma_offered_entry(grids.dct8x4, i),
        SubStrategy::Identity => lemma_offered_entry(grids.identity, i),
        SubStrategy::Dct2x2 => lemma_offered_entry(grids.dct2x2, i),
        SubStrategy::Afv0 => lemma_offered_entry(grids.afv0, i),
        SubStrategy::Afv1 => lemma_offered_entry(grids.afv1, i),
        SubStrategy::Afv2 => lemma_offered_entry(grids.afv2, i),
        SubStrategy::Afv3 => lemma_offered_entry(grids.afv3, i),
    }
}

/// What a partition of a 16x16 region costs, where every cost is a finite
/// number: a number where all its transforms are considered, and infinity or
/// nothing where one is not. And where no cost is below zero, not below zero,
/// and infinite where one is not considered.
proof fn lemma_cost16(
    dct8: Seq<Float32>,
    dct16: Seq<Float32>,
    extra: Grids16,
    xs8: int,
    ys8: int,
    rx: int,
    ry: int,
    p: Partition16x16,
)
    requires
        finite_region_costs(dct8, dct16, extra, xs8, ys8),
        0 <= rx < xs8 / 2,
        0 <= ry < ys8 / 2,
    ensures
        ({
            let cost = partition16_cost(p, dct8, dct16, extra, xs8, rx, ry);
            &&& p is Dct16x16 ==> cost.finite()
            &&& legal16(p, extra) ==> !cost.nan()
            &&& !legal16(p, extra) ==> cost == infinity() || (p is FourSubBlocks && cost.nan())
            &&& nonnegative_region_costs(dct8, dct16, extra) ==> {
                &&& !cost.nan() && cost.value() >= 0
                &&& !legal16(p, extra) ==> cost == infinity()
            }
        }),
{
    reveal(partition16_cost);
    let grids = extra.sub_blocks;
    lemma_places16(xs8, ys8, rx, ry);
    lemma_units_increase(0, INFINITY_MAGNITUDE as nat);
    let i0 = corner(xs8, rx, ry, 0);
    let i1 = corner(xs8, rx, ry, 1);
    let i2 = corner(xs8, rx, ry, 2);
    let i3 = corner(xs8, rx, ry, 3);
    match p {
        Partition16x16::Dct16x16 => lemma_entry(dct16, ry * (xs8 / 2) + rx),
        Partition16x16::TwoDct16x8Horizontal => {
            if let Some(g) = extra.dct_16x8 {
                lemma_entry(g, ry * xs8 + 2 * rx);
                lemma_entry(g, ry * xs8 + 2 * rx + 1);
                lemma_sum_with_finite(g[ry * xs8 + 2 * rx], g[ry * xs8 + 2 * rx + 1]);
            }
        },
        Partition16x16::TwoDct8x16Vertical => {
            let xs16 = xs8 / 2;
            if let Some(g) = extra.dct_8x16 {
                lemma_entry(g, 2 * ry * xs16 + rx);
                lemma_entry(g, (2 * ry + 1) * xs16 + rx);
                lemma_sum_with_finite(g[2 * ry * xs16 + rx], g[(2 * ry + 1) * xs16 + rx]);
            }
        },
        Partition16x16::FourDct8x8 => {
            lemma_entry(dct8, i0);
            lemma_entry(dct8, i1);
            lemma_entry(dct8, i2);
            lemma_entry(dct8, i3);
            let (a, b, c, d) = (dct8[i0], dct8[i1], dct8[i2], dct8[i3]);
            lemma_sum_with_finite(a, b);
            lemma_sum_with_finite(sum(a, b), c);
            lemma_sum_with_finite(sum(sum(a, b), c), d);
        },
        Partition16x16::FourSubBlocks(subs) => {
            lemma_cell_cost(grids, dct8, subs@[0], i0);
            lemma_cell_cost(grids, dct8, subs@[1], i1);
            lemma_cell_cost(grids, dct8, subs@[2], i2);
            lemma_cell_cost(grids, dct8, subs@[3], i3);
            let a = grids.cost(dct8, subs@[0], i0);
            let b = grids.cost(dct8, subs@[1], i1);
            let c = grids.cost(dct8, subs@[2], i2);
            let d = grids.cost(dct8, subs@[3], i3);
            lemma_sum_keeps_infinity(a, b);
            lemma_sum_keeps_infinity(sum(a, b), c);
            lemma_sum_keeps_infinity(sum(sum(a, b), c), d);
            if legal16(p, extra) || nonnegative_region_costs(dct8, dct16, extra) {
                lemma_sum_with_finite(a, b);
                lemma_sum_with_finite(sum(a, b), c);
                lemma_sum_with_finite(sum(sum(a, b), c), d);
            }
        },
    }
}

/// Whether no cost for 16x16 regions is below zero.
pub open spec fn nonnegative_region_costs(
    dct8: Seq<Float32>,
    dct16: Seq<Float32>,
    extra: Grids16,
) -> bool {
    &&& nonnegative_costs(Some(dct8))
    &&& nonnegative_costs(Some(dct16))
    &&& nonnegative_costs(extra.dct_16x8)
    &&& nonnegative_costs(extra.dct_8x16)
    &&& extra.sub_blocks.nonnegative()
}

/// The costs of the partitions of a 16x16 region, where every cost in the grids
/// is a finite number. A partition that needs a grid that is absent costs
/// infinity; any other, a number. The partition picked costs what the choice is
/// made by, which is a finite number, and no partition whatever costs less.
///
/// Costs far below zero are the exception: where the sum of some falls below all
/// finite numbers, the partition picked may cost minus infinity, and four
/// transforms within 8x8 blocks, one of which is not considered, may have no
/// cost at all.
pub proof fn law_costs_of_partitions16(
    dct8: Seq<Float32>,
    dct16: Seq<Float32>,
    extra: Grids16,
    xs8: int,
    ys8: int,
    rx: int,
    ry: int,
    p: Partition16x16,
)
    requires
        finite_region_costs(dct8, dct16, extra, xs8, ys8),
        0 <= rx < xs8 / 2,
        0 <= ry < ys8 / 2,
    ensures
        ({
            let cost = partition16_cost(p, dct8, dct16, extra, xs8, rx, ry);
            let picked = choice16(dct8, dct16, extra, xs8, rx, ry);
            &&& !legal16(p, extra) ==> cost == infinity() || (p is FourSubBlocks && cost.nan())
            &&& legal16(p, extra) ==> !cost.nan()
            &&& legal16(picked.1, extra)
            &&& partition16_cost(picked.1, dct8, dct16, extra, xs8, rx, ry) == picked.0
            &&& picked.0.finite() || (picked.0.infinite() && picked.0.negative())
            &&& !cost.less(picked.0)
        }),
{
    assert forall|q: Partition16x16| legal16(q, extra) implies !(#[trigger] partition16_cost(
        q,
        dct8,
        dct16,
        extra,
        xs8,
        rx,
        ry,
    )).nan() by {
        lemma_cost16(dct8, dct16, extra, xs8, ys8, rx, ry, q);
    }
    let picked = choice16(dct8, dct16, extra, xs8, rx, ry);
    let whole = Partition16x16::Dct16x16;
    lemma_cost16(dct8, dct16, extra, xs8, ys8, rx, ry, p);
    lemma_cost16(dct8, dct16, extra, xs8, ys8, rx, ry, whole);
    law_choice16_is_legal(dct8, dct16, extra, xs8, rx, ry);
    law_choice16_is_least(dct8, dct16, extra, xs8, rx, ry, whole);
    let one = partition16_cost(whole, dct8, dct16, extra, xs8, rx, ry);
    lemma_units_increase(one.magnitude(), INFINITY_MAGNITUDE as nat);
    lemma_units_increase(0, INFINITY_MAGNITUDE as nat);
    if legal16(p, extra) {
        law_choice16_is_least(dct8, dct16, extra, xs8, rx, ry, p);
    } else if picked.0.finite() {
        lemma_units_increase(picked.0.magnitude(), INFINITY_MAGNITUDE as nat);
    }
}

/// Where every cost is a finite number and none is below zero: a partition of a
/// 16x16 region that needs a grid that is absent costs infinity, the one picked
/// costs a finite number, and no partition costs less.
pub proof fn law_cost16_of_nonnegative_grids(
    dct8: Seq<Float32>,
    dct16: Seq<Float32>,
    extra: Grids16,
    xs8: int,
    ys8: int,
    rx: int,
    ry: int,
    p: Partition16x16,
)
    requires
        finite_region_costs(dct8, dct16, extra, xs8, ys8),
        nonnegative_region_costs(dct8, dct16, extra),
        0 <= rx < xs8 / 2,
        0 <= ry < ys8 / 2,
    ensures
        !legal16(p, extra) ==> partition16_cost(p, dct8, dct16, extra, xs8, rx, ry) == infinity(),
        choice16(dct8, dct16, extra, xs8, rx, ry).0.finite(),
        !partition16_cost(p, dct8, dct16, extra, xs8, rx, ry).less(
            choice16(dct8, dct16, extra, xs8, rx, ry).0,
        ),
{
    let choice = choice16(dct8, dct16, extra, xs8, rx, ry);
    law_choice16_is_legal(dct8, dct16, extra, xs8, rx, ry);
    lemma_cost16(dct8, dct16, extra, xs8, ys8, rx, ry, choice.1);
    lemma_cost16(dct8, dct16, extra, xs8, ys8, rx, ry, p);
    lemma_units_increase(0, INFINITY_MAGNITUDE as nat);
    assert(units(0) == 0);
    law_costs_of_partitions16(dct8, dct16, extra, xs8, ys8, rx, ry, p);
}

/// Where DCT32x32 is not considered, no other legal partition of a 32x32 region
/// costs less than the one picked, where no cost is a NaN.
pub proof fn law_choice32_of_parts_is_least(
    dct8: Seq<Float32>,
    dct16: Seq<Float32>,
    dct32: Seq<Float32>,
    extra: Grids32,
    extra16: Grids16,
    xs8: int,
    rx: int,
    ry: int,
    p: Partition32x32,
)
    requires
        p !is Dct32x32,
        legal32(p, extra, extra16),
        forall|q: Partition32x32|
            q !is Dct32x32 && legal32(q, extra, extra16) ==> !(#[trigger] partition32_cost(
                q,
                dct8,
                dct16,
                dct32,
                extra,
                extra16,
                xs8,
                rx,
                ry,
            )).nan(),
    ensures
        !partition32_cost(p, dct8, dct16, dct32, extra, extra16, xs8, rx, ry).less(
            choice32_of_parts(dct8, dct16, extra, extra16, xs8, rx, ry).0,
        ),
        !choice32_of_parts(dct8, dct16, extra, extra16, xs8, rx, ry).0.nan(),
{
    let cost = |q: Partition32x32|
        partition32_cost(q, dct8, dct16, dct32, extra, extra16, xs8, rx, ry);
    let subs = region_choices(dct8, dct16, extra16, xs8, rx, ry);
    law_choice16_is_legal(dct8, dct16, extra16, xs8, 2 * rx, 2 * ry);
    law_choice16_is_legal(dct8, dct16, extra16, xs8, 2 * rx + 1, 2 * ry);
    law_choice16_is_legal(dct8, dct16, extra16, xs8, 2 * rx, 2 * ry + 1);
    law_choice16_is_legal(dct8, dct16, extra16, xs8, 2 * rx + 1, 2 * ry + 1);
    let split = Partition32x32::Sub16x16(subs);
    assert(legal32(split, extra, extra16));
    assert(!cost(split).nan());
    assert(extra.dct_32x16 is Some ==> !cost(Partition32x32::TwoDct32x16Horizontal).nan());
    assert(extra.dct_16x32 is Some ==> !cost(Partition32x32::TwoDct16x32Vertical).nan());
    if let Partition32x32::Sub16x16(other) = p {
        lemma_split_least(dct8, dct16, dct32, extra, extra16, xs8, rx, ry, other);
    }
    reveal(choice32_of_parts);
}

/// The choices for the 16x16 regions of a 32x32 region cost no more together
/// than other partitions.
proof fn lemma_split_least(
    dct8: Seq<Float32>,
    dct16: Seq<Float32>,
    dct32: Seq<Float32>,
    extra: Grids32,
    extra16: Grids16,
    xs8: int,
    rx: int,
    ry: int,
    other: [Partition16x16; 4],
)
    requires
        legal32(Partition32x32::Sub16x16(other), extra, extra16),
        forall|q: Partition32x32|
            q is Sub16x16 && legal32(q, extra, extra16) ==> !(#[trigger] partition32_cost(
                q,
                dct8,
                dct16,
                dct32,
                extra,
                extra16,
                xs8,
                rx,
                ry,
            )).nan(),
    ensures
        four_regions16_cost(
            region_choices(dct8, dct16, extra16, xs8, rx, ry),
            dct8,
            dct16,
            extra16,
            xs8,
            rx,
            ry,
        ).value() <= four_regions16_cost(other, dct8, dct16, extra16, xs8, rx, ry).value(),
{
    let cost = |q: Partition32x32|
        partition32_cost(q, dct8, dct16, dct32, extra, extra16, xs8, rx, ry);
    let subs = region_choices(dct8, dct16, extra16, xs8, rx, ry);
    law_choice16_is_legal(dct8, dct16, extra16, xs8, 2 * rx, 2 * ry);
    law_choice16_is_legal(dct8, dct16, extra16, xs8, 2 * rx + 1, 2 * ry);
    law_choice16_is_legal(dct8, dct16, extra16, xs8, 2 * rx, 2 * ry + 1);
    law_choice16_is_legal(dct8, dct16, extra16, xs8, 2 * rx + 1, 2 * ry + 1);
    assert(legal32(Partition32x32::Sub16x16(subs), extra, extra16));
    assert(!cost(Partition32x32::Sub16x16(subs)).nan());
    assert(!cost(Partition32x32::Sub16x16(other)).nan());
    assert forall|q: Partition16x16, k: int|
        legal16(q, extra16) && 0 <= k < 4 implies !(#[trigger] sub_cost16(
        q,
        dct8,
        dct16,
        extra16,
        xs8,
        rx,
        ry,
        k,
    )).nan() by {
        let all = Partition32x32::Sub16x16([q, q, q, q]);
        assert(legal32(all, extra, extra16));
        assert(!cost(all).nan());
        lemma_sum4_operands(
            sub_cost16(q, dct8, dct16, extra16, xs8, rx, ry, 0),
            sub_cost16(q, dct8, dct16, extra16, xs8, rx, ry, 1),
            sub_cost16(q, dct8, dct16, extra16, xs8, rx, ry, 2),
            sub_cost16(q, dct8, dct16, extra16, xs8, rx, ry, 3),
        );
        assert(k == 0 || k == 1 || k == 2 || k == 3);
    }
    lemma_quarter_least(dct8, dct16, extra16, xs8, rx, ry, 0, other@[0]);
    lemma_quarter_least(dct8, dct16, extra16, xs8, rx, ry, 1, other@[1]);
    lemma_quarter_least(dct8, dct16, extra16, xs8, rx, ry, 2, other@[2]);
    lemma_quarter_least(dct8, dct16, extra16, xs8, rx, ry, 3, other@[3]);
    lemma_sum4_monotone(
        sub_cost16(subs@[0], dct8, dct16, extra16, xs8, rx, ry, 0),
        sub_cost16(subs@[1], dct8, dct16, extra16, xs8, rx, ry, 1),
        sub_cost16(subs@[2], dct8, dct16, extra16, xs8, rx, ry, 2),
        sub_cost16(subs@[3], dct8, dct16, extra16, xs8, rx, ry, 3),
        sub_cost16(other@[0], dct8, dct16, extra16, xs8, rx, ry, 0),
        sub_cost16(other@[1], dct8, dct16, extra16, xs8, rx, ry, 1),
        sub_cost16(other@[2], dct8, dct16, extra16, xs8, rx, ry, 2),
        sub_cost16(other@[3], dct8, dct16, extra16, xs8, rx, ry, 3),
    );
}

} // verus!

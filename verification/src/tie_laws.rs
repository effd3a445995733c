//! How the partition selector settles ties.

use crate::float::Float32;
use crate::partition::{
    better_if, choice16, choice32, choice32_of_parts, choice64, corner, entry, legal16,
    partition16_cost, partition32_cost, Grids16, Grids32, Grids64, Partition16x16, Partition32x32,
    Partition64x64, SubBlockGrids, SubStrategy,
};
use crate::partition_laws::{law_cell_choice_is_considered, legal32, legal64, partition64_cost};
use vstd::prelude::*;

verus! {

/// The order in which the transforms within an 8x8 block are preferred.
pub open spec fn cell_rank(s: SubStrategy) -> int {
    match s {
        SubStrategy::Dct8 => 0,
        SubStrategy::Dct4x4 => 1,
        SubStrategy::Dct4x8 => 2,
        SubStrategy::Dct8x4 => 3,
        SubStrategy::Identity => 4,
        SubStrategy::Dct2x2 => 5,
        SubStrategy::Afv0 => 6,
        SubStrategy::Afv1 => 7,
        SubStrategy::Afv2 => 8,
        SubStrategy::Afv3 => 9,
    }
}

/// Whether a choice is settled among the transforms up to a rank.
spec fn settled(
    grids: SubBlockGrids,
    dct8: Seq<Float32>,
    i: int,
    best: (Float32, SubStrategy),
    rank: int,
) -> bool {
    &&& !best.0.nan()
    &&& cell_rank(best.1) <= rank
    &&& forall|t: SubStrategy|
        grids.considers(t) && cell_rank(t) <= rank ==> best.0.value() <= (#[trigger] grids.cost(
            dct8,
            t,
            i,
        )).value() && (cell_rank(t) < cell_rank(best.1) ==> best.0.less(grids.cost(dct8, t, i)))
}

proof fn lemma_settled(
    grids: SubBlockGrids,
    dct8: Seq<Float32>,
    i: int,
    best: (Float32, SubStrategy),
    what: SubStrategy,
)
    requires
        settled(grids, dct8, i, best, cell_rank(what) - 1),
        forall|t: SubStrategy| grids.considers(t) ==> !(#[trigger] grids.cost(dct8, t, i)).nan(),
    ensures
        ({
            let cost = if grids.considers(what) {
                Some(grids.cost(dct8, what, i))
            } else {
                None
            };
            settled(grids, dct8, i, better_if(best, cost, what), cell_rank(what))
        }),
{
    let cost = if grids.considers(what) {
        Some(grids.cost(dct8, what, i))
    } else {
        None
    };
    let next = better_if(best, cost, what);
    assert forall|t: SubStrategy|
        grids.considers(t) && cell_rank(t) <= cell_rank(what) implies next.0.value() <= (
    #[trigger] grids.cost(dct8, t, i)).value() && (cell_rank(t) < cell_rank(next.1)
        ==> next.0.less(grids.cost(dct8, t, i))) by {
        assert(cell_rank(t) == cell_rank(what) ==> t == what);
    }
}

/// Of transforms for an 8x8 block that cost the same, the one that is preferred
/// is picked: what is picked costs less than all that are preferred to it.
#[verifier::rlimit(40)]
pub proof fn law_preferred_transforms_win_ties(
    grids: SubBlockGrids,
    dct8: Seq<Float32>,
    i: int,
    s: SubStrategy,
)
    requires
        grids.considers(s),
        forall|t: SubStrategy| grids.considers(t) ==> !(#[trigger] grids.cost(dct8, t, i)).nan(),
        cell_rank(s) < cell_rank(grids.cell_choice(dct8, i).1),
    ensures
        grids.cell_choice(dct8, i).0.less(grids.cost(dct8, s, i)),
{
    assert(!grids.cost(dct8, SubStrategy::Dct8, i).nan());
    let c0 = (dct8[i], SubStrategy::Dct8);
    let c1 = better_if(c0, entry(grids.dct4x4, i), SubStrategy::Dct4x4);
    lemma_settled(grids, dct8, i, c0, SubStrategy::Dct4x4);
    let c2 = better_if(c1, entry(grids.dct4x8, i), SubStrategy::Dct4x8);
    lemma_settled(grids, dct8, i, c1, SubStrategy::Dct4x8);
    let c3 = better_if(c2, entry(grids.dct8x4, i), SubStrategy::Dct8x4);
    lemma_settled(grids, dct8, i, c2, SubStrategy::Dct8x4);
    let c4 = better_if(c3, entry(grids.identity, i), SubStrategy::Identity);
    lemma_settled(grids, dct8, i, c3, SubStrategy::Identity);
    let c5 = better_if(c4, entry(grids.dct2x2, i), SubStrategy::Dct2x2);
    lemma_settled(grids, dct8, i, c4, SubStrategy::Dct2x2);
    let c6 = better_if(c5, entry(grids.afv0, i), SubStrategy::Afv0);
    lemma_settled(grids, dct8, i, c5, SubStrategy::Afv0);
    let c7 = better_if(c6, entry(grids.afv1, i), SubStrategy::Afv1);
    lemma_settled(grids, dct8, i, c6, SubStrategy::Afv1);
    let c8 = better_if(c7, entry(grids.afv2, i), SubStrategy::Afv2);
    lemma_settled(grids, dct8, i, c7, SubStrategy::Afv2);
    let c9 = better_if(c8, entry(grids.afv3, i), SubStrategy::Afv3);
    lemma_settled(grids, dct8, i, c8, SubStrategy::Afv3);
    assert(c9 == grids.cell_choice(dct8, i));
}

/// The order in which the partitions of a 16x16 region are preferred.
pub open spec fn rank16(p: Partition16x16) -> int {
    match p {
        Partition16x16::Dct16x16 => 0,
        Partition16x16::TwoDct16x8Horizontal => 1,
        Partition16x16::TwoDct8x16Vertical => 2,
        Partition16x16::FourDct8x8 => 3,
        Partition16x16::FourSubBlocks(_) => 4,
    }
}

/// Of partitions of a 16x16 region that cost the same, the one that is preferred
/// is picked, where no cost is a NaN.
#[verifier::rlimit(40)]
pub proof fn law_preferred_partitions16_win_ties(
    dct8: Seq<Float32>,
    dct16: Seq<Float32>,
    extra: Grids16,
    xs8: int,
    rx: int,
    ry: int,
    p: Partition16x16,
)
    requires
        legal16(p, extra),
        forall|q: Partition16x16|
            legal16(q, extra) ==> !(#[trigger] partition16_cost(
                q,
                dct8,
                dct16,
                extra,
                xs8,
                rx,
                ry,
            )).nan(),
        rank16(p) < rank16(choice16(dct8, dct16, extra, xs8, rx, ry).1),
    ensures
        choice16(dct8, dct16, extra, xs8, rx, ry).0.less(
            partition16_cost(p, dct8, dct16, extra, xs8, rx, ry),
        ),
{
    let cost = |q: Partition16x16| partition16_cost(q, dct8, dct16, extra, xs8, rx, ry);
    assert(!cost(Partition16x16::Dct16x16).nan());
    assert(!cost(Partition16x16::FourDct8x8).nan());
    assert(extra.dct_16x8 is Some ==> !cost(Partition16x16::TwoDct16x8Horizontal).nan());
    assert(extra.dct_8x16 is Some ==> !cost(Partition16x16::TwoDct8x16Vertical).nan());
    law_cell_choice_is_considered(extra.sub_blocks, dct8, corner(xs8, rx, ry, 0));
    law_cell_choice_is_considered(extra.sub_blocks, dct8, corner(xs8, rx, ry, 1));
    law_cell_choice_is_considered(extra.sub_blocks, dct8, corner(xs8, rx, ry, 2));
    law_cell_choice_is_considered(extra.sub_blocks, dct8, corner(xs8, rx, ry, 3));
    reveal(choice16);
    reveal(partition16_cost);
}

/// The order in which the partitions of a 32x32 region are preferred.
pub open spec fn rank32(p: Partition32x32) -> int {
    match p {
        Partition32x32::Dct32x32 => 0,
        Partition32x32::TwoDct32x16Horizontal => 1,
        Partition32x32::TwoDct16x32Vertical => 2,
        Partition32x32::Sub16x16(_) => 3,
    }
}

/// Of partitions of a 32x32 region that cost the same, the one that is preferred
/// is picked, where no cost is a NaN. One that is split is split as its quarters
/// choose for themselves.
pub proof fn law_preferred_partitions32_win_ties(
    dct8: Seq<Float32>,
    dct16: Seq<Float32>,
    dct32: Seq<Float32>,
    extra: Grids32,
    extra16: Grids16,
    xs8: int,
    rx: int,
    ry: int,
    p: Partition32x32,
)
    requires
        legal32(p, extra, extra16),
        forall|q: Partition32x32|
            legal32(q, extra, extra16) && !(q is Sub16x16) ==> !(#[trigger] partition32_cost(
                q,
                dct8,
                dct16,
                dct32,
                extra,
                extra16,
                xs8,
                rx,
                ry,
            )).nan(),
    ensures
        ({
            let choice = choice32(dct8, dct16, dct32, extra, extra16, xs8, rx, ry);
            &&& rank32(p) < rank32(choice.1) ==> choice.0.less(
                partition32_cost(p, dct8, dct16, dct32, extra, extra16, xs8, rx, ry),
            )
            &&& choice.1 matches Partition32x32::Sub16x16(subs) ==> forall|k: int|
                0 <= k < 4 ==> #[trigger] subs@[k] == choice16(
                    dct8,
                    dct16,
                    extra16,
                    xs8,
                    2 * rx + k % 2,
                    2 * ry + k / 2,
                ).1
        }),
{
    let cost = |q: Partition32x32|
        partition32_cost(q, dct8, dct16, dct32, extra, extra16, xs8, rx, ry);
    assert(!cost(Partition32x32::Dct32x32).nan());
    assert(extra.dct_32x16 is Some ==> !cost(Partition32x32::TwoDct32x16Horizontal).nan());
    assert(extra.dct_16x32 is Some ==> !cost(Partition32x32::TwoDct16x32Vertical).nan());
    reveal(choice32);
}

/// Where DCT32x32 is not considered, a 32x32 region is split as its quarters
/// choose for themselves unless two transforms cost less, and of those the ones
/// side by side are preferred.
pub proof fn law_parts_of_32_win_ties(
    dct8: Seq<Float32>,
    dct16: Seq<Float32>,
    dct32: Seq<Float32>,
    extra: Grids32,
    extra16: Grids16,
    xs8: int,
    rx: int,
    ry: int,
    subs: [Partition16x16; 4],
)
    requires
        forall|k: int|
            0 <= k < 4 ==> #[trigger] subs@[k] == choice16(
                dct8,
                dct16,
                extra16,
                xs8,
                2 * rx + k % 2,
                2 * ry + k / 2,
            ).1,
        forall|q: Partition32x32|
            legal32(q, extra, extra16) ==> !(#[trigger] partition32_cost(
                q,
                dct8,
                dct16,
                dct32,
                extra,
                extra16,
                xs8,
                rx,
                ry,
            )).nan(),
    ensures
        ({
            let choice = choice32_of_parts(dct8, dct16, extra, extra16, xs8, rx, ry);
            let split = partition32_cost(
                Partition32x32::Sub16x16(subs),
                dct8,
                dct16,
                dct32,
                extra,
                extra16,
                xs8,
                rx,
                ry,
            );
            let across = partition32_cost(
                Partition32x32::TwoDct32x16Horizontal,
                dct8,
                dct16,
                dct32,
                extra,
                extra16,
                xs8,
                rx,
                ry,
            );
            &&& choice.1 matches Partition32x32::Sub16x16(other) ==> other@ == subs@
            &&& !(choice.1 is Sub16x16) ==> choice.0.less(split)
            &&& choice.1 is TwoDct16x32Vertical && extra.dct_32x16 is Some ==> choice.0.less(across)
        }),
{
    let cost = |q: Partition32x32|
        partition32_cost(q, dct8, dct16, dct32, extra, extra16, xs8, rx, ry);
    assert(extra.dct_32x16 is Some ==> !cost(Partition32x32::TwoDct32x16Horizontal).nan());
    assert(extra.dct_16x32 is Some ==> !cost(Partition32x32::TwoDct16x32Vertical).nan());
    crate::partition_laws::law_choice16_is_legal(dct8, dct16, extra16, xs8, 2 * rx, 2 * ry);
    crate::partition_laws::law_choice16_is_legal(dct8, dct16, extra16, xs8, 2 * rx + 1, 2 * ry);
    crate::partition_laws::law_choice16_is_legal(dct8, dct16, extra16, xs8, 2 * rx, 2 * ry + 1);
    crate::partition_laws::law_choice16_is_legal(
        dct8,
        dct16,
        extra16,
        xs8,
        2 * rx + 1,
        2 * ry + 1,
    );
    let own = crate::partition::region_choices(dct8, dct16, extra16, xs8, rx, ry);
    assert(own@ =~= subs@) by {
        assert(subs@[0] == own@[0] && subs@[1] == own@[1] && subs@[2] == own@[2] && subs@[3]
            == own@[3]);
    }
    assert(!cost(Partition32x32::Sub16x16(own)).nan());
    assert(cost(Partition32x32::Sub16x16(own)) == cost(Partition32x32::Sub16x16(subs)));
    reveal(choice32_of_parts);
}

/// The order in which the partitions of a 64x64 region are preferred.
pub open spec fn rank64(p: Partition64x64) -> int {
    match p {
        Partition64x64::Dct64x64 => 0,
        Partition64x64::TwoDct64x32Horizontal => 1,
        Partition64x64::TwoDct32x64Vertical => 2,
        Partition64x64::Sub32x32(_) => 3,
    }
}

/// Of partitions of a 64x64 region that cost the same, the one that is preferred
/// is picked, where no cost is a NaN. One that is split is split as its quarters
/// choose for themselves.
pub proof fn law_preferred_partitions64_win_ties(
    dct8: Seq<Float32>,
    dct16: Seq<Float32>,
    dct32: Seq<Float32>,
    dct64: Seq<Float32>,
    extra32: Grids32,
    extra64: Grids64,
    extra16: Grids16,
    xs8: int,
    rx: int,
    ry: int,
    p: Partition64x64,
)
    requires
        legal64(p, extra32, extra64, extra16),
        forall|q: Partition64x64|
            legal64(q, extra32, extra64, extra16) && !(q is Sub32x32) ==> !(
            #[trigger] partition64_cost(
                q,
                dct8,
                dct16,
                dct32,
                dct64,
                extra32,
                extra64,
                extra16,
                xs8,
                rx,
                ry,
            )).nan(),
    ensures
        ({
            let choice = choice64(
                dct8,
                dct16,
                dct32,
                dct64,
                extra32,
                extra64,
                extra16,
                xs8,
                rx,
                ry,
            );
            &&& rank64(p) < rank64(choice.1) ==> choice.0.less(
                partition64_cost(
                    p,
                    dct8,
                    dct16,
                    dct32,
                    dct64,
                    extra32,
                    extra64,
                    extra16,
                    xs8,
                    rx,
                    ry,
                ),
            )
            &&& choice.1 matches Partition64x64::Sub32x32(subs) ==> forall|k: int|
                0 <= k < 4 ==> #[trigger] subs@[k] == choice32(
                    dct8,
                    dct16,
                    dct32,
                    extra32,
                    extra16,
                    xs8,
                    2 * rx + k % 2,
                    2 * ry + k / 2,
                ).1
        }),
{
    let cost = |q: Partition64x64|
        partition64_cost(
            q,
            dct8,
            dct16,
            dct32,
            dct64,
            extra32,
            extra64,
            extra16,
            xs8,
            rx,
            ry,
        );
    assert(!cost(Partition64x64::Dct64x64).nan());
    assert(extra64.dct_64x32 is Some ==> !cost(Partition64x64::TwoDct64x32Horizontal).nan());
    assert(extra64.dct_32x64 is Some ==> !cost(Partition64x64::TwoDct32x64Vertical).nan());
    reveal(choice64);
}

} // verus!

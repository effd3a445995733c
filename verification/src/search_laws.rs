//! What the strategy search can choose.

use crate::assignment::{layout, region16, region32, region64, shifted, Placement};
use crate::float::Float32;
use crate::partition::{
    choice32, choice32_of_parts, choice64, corner, legal16, sub_choice32, Partition16x16,
    Partition32x32, Partition64x64,
};
use crate::partition_laws::{
    law_cell_choice_is_considered, law_choice16_is_legal, law_choice32_is_legal,
    law_choice32_of_parts_is_legal,
};
use crate::quality::float;
use crate::search::{
    gates_at, subblock_specs_of, SearchGates, SearchScales, SubblockStratSpec,
    ENTROPY_MUL_DCT32X32,
};
use crate::search_costs::{collected, jobs_if, jobs_of, sub_block_jobs, weighed, CostJob, Costs};
use crate::strategy::{
    RAW_STRATEGY_AFV0, RAW_STRATEGY_AFV1, RAW_STRATEGY_AFV2, RAW_STRATEGY_AFV3, RAW_STRATEGY_DCT,
    RAW_STRATEGY_DCT16X16, RAW_STRATEGY_DCT16X32, RAW_STRATEGY_DCT16X8, RAW_STRATEGY_DCT2X2,
    RAW_STRATEGY_DCT32X16, RAW_STRATEGY_DCT32X32, RAW_STRATEGY_DCT32X64, RAW_STRATEGY_DCT4X4,
    RAW_STRATEGY_DCT4X8, RAW_STRATEGY_DCT64X32, RAW_STRATEGY_DCT64X64, RAW_STRATEGY_DCT8X16,
    RAW_STRATEGY_DCT8X4, RAW_STRATEGY_IDENTITY,
};
use vstd::prelude::*;

verus! {

/// Whether a search considers a transform; `afv` says whether it evaluates the
/// AFV transforms.
pub open spec fn allows(gates: SearchGates, afv: bool, code: u8) -> bool {
    ||| code == RAW_STRATEGY_DCT
    ||| gates.dct16 && (code == RAW_STRATEGY_DCT16X16 || code == RAW_STRATEGY_DCT16X8 || code
        == RAW_STRATEGY_DCT8X16)
    ||| gates.sub_blocks && (code == RAW_STRATEGY_DCT4X4 || code == RAW_STRATEGY_DCT2X2 || code
        == RAW_STRATEGY_IDENTITY)
    ||| gates.dct4x8 && (code == RAW_STRATEGY_DCT4X8 || code == RAW_STRATEGY_DCT8X4)
    ||| afv && (code == RAW_STRATEGY_AFV0 || code == RAW_STRATEGY_AFV1 || code == RAW_STRATEGY_AFV2
        || code == RAW_STRATEGY_AFV3)
    ||| gates.rect32 && (code == RAW_STRATEGY_DCT32X16 || code == RAW_STRATEGY_DCT16X32)
    ||| gates.dct32 && code == RAW_STRATEGY_DCT32X32
    ||| gates.dct64 && (code == RAW_STRATEGY_DCT64X64 || code == RAW_STRATEGY_DCT64X32 || code
        == RAW_STRATEGY_DCT32X64)
}

/// Whether a search considers all of some transforms.
pub open spec fn allows_all(gates: SearchGates, afv: bool, s: Seq<Placement>) -> bool {
    forall|i: int| 0 <= i < s.len() ==> allows(gates, afv, (#[trigger] s[i]).2)
}

impl Costs {
    /// Whether there are costs within 16x16 regions only for transforms that
    /// the search considers.
    pub open spec fn only(self, gates: SearchGates, afv: bool) -> bool {
        &&& gates.dct16 || (self.dct16x8.len() == 0 && self.dct8x16.len() == 0)
        &&& gates.sub_blocks || (self.dct4x4.len() == 0 && self.identity.len() == 0
            && self.dct2x2.len() == 0)
        &&& gates.dct4x8 || (self.dct4x8.len() == 0 && self.dct8x4.len() == 0)
        &&& afv || (self.afv0.len() == 0 && self.afv1.len() == 0 && self.afv2.len() == 0
            && self.afv3.len() == 0)
    }
}

proof fn lemma_layout_allowed(
    gates: SearchGates,
    afv: bool,
    regions: Seq<Seq<Placement>>,
    xs: int,
    size: int,
)
    requires
        forall|i: int| 0 <= i < regions.len() ==> allows_all(gates, afv, #[trigger] regions[i]),
    ensures
        allows_all(gates, afv, layout(regions, xs, size)),
    decreases regions.len(),
{
    if regions.len() > 0 {
        let k = regions.len() - 1;
        let before = regions.drop_last();
        assert forall|i: int| 0 <= i < before.len() implies allows_all(
            gates,
            afv,
            #[trigger] before[i],
        ) by {
            assert(before[i] == regions[i]);
        }
        lemma_layout_allowed(gates, afv, before, xs, size);
        assert(allows_all(gates, afv, regions[k]));
        let moved = shifted(regions.last(), (k % xs) * size, (k / xs) * size);
        let all = layout(regions, xs, size);
        let first = layout(before, xs, size);
        assert(all == first + moved);
        assert forall|i: int| 0 <= i < all.len() implies allows(
            gates,
            afv,
            (#[trigger] all[i]).2,
        ) by {
            if i < first.len() {
                assert(all[i] == first[i]);
            } else {
                assert(all[i] == moved[i - first.len()]);
                assert(moved[i - first.len()].2 == regions[k][i - first.len()].2);
            }
        }
    }
}

/// Whether a partition of a 16x16 region has a DCT16x16 only where that is
/// considered.
spec fn square16_allowed(gates: SearchGates, p: Partition16x16) -> bool {
    p is Dct16x16 ==> gates.dct16
}

proof fn lemma_region16_allowed(c: Costs, gates: SearchGates, afv: bool, p: Partition16x16)
    requires
        c.only(gates, afv),
        legal16(p, c.extras16()),
        square16_allowed(gates, p),
    ensures
        allows_all(gates, afv, region16(p)),
{
}

proof fn lemma_region32_allowed(c: Costs, gates: SearchGates, afv: bool, p: Partition32x32)
    requires
        c.only(gates, afv),
        gates.dct16,
        gates.rect32,
        p is Dct32x32 ==> gates.dct32,
        p matches Partition32x32::Sub16x16(subs) ==> forall|k: int|
            0 <= k < 4 ==> legal16(#[trigger] subs@[k], c.extras16()),
    ensures
        allows_all(gates, afv, region32(p)),
{
    if let Partition32x32::Sub16x16(subs) = p {
        let regions = Seq::new(4, |i: int| region16(subs@[i]));
        assert forall|i: int| 0 <= i < regions.len() implies allows_all(
            gates,
            afv,
            #[trigger] regions[i],
        ) by {
            lemma_region16_allowed(c, gates, afv, subs@[i]);
        }
        lemma_layout_allowed(gates, afv, regions, 2, 2);
    }
}

proof fn lemma_choice32_allowed(
    c: Costs,
    gates: SearchGates,
    afv: bool,
    dct32: Seq<Float32>,
    xs8: int,
    rx: int,
    ry: int,
)
    requires
        c.only(gates, afv),
        gates.dct16,
        gates.rect32,
        gates.dct32,
    ensures
        allows_all(
            gates,
            afv,
            region32(
                choice32(
                    c.dct8,
                    c.dct16x16,
                    dct32,
                    c.extras32(),
                    c.extras16(),
                    xs8,
                    rx,
                    ry,
                ).1,
            ),
        ),
{
    let p = choice32(c.dct8, c.dct16x16, dct32, c.extras32(), c.extras16(), xs8, rx, ry).1;
    law_choice32_is_legal(c.dct8, c.dct16x16, dct32, c.extras32(), c.extras16(), xs8, rx, ry);
    lemma_region32_allowed(c, gates, afv, p);
}

proof fn lemma_choice32_of_parts_allowed(
    c: Costs,
    gates: SearchGates,
    afv: bool,
    xs8: int,
    rx: int,
    ry: int,
)
    requires
        c.only(gates, afv),
        gates.dct16,
        gates.rect32,
    ensures
        allows_all(
            gates,
            afv,
            region32(
                choice32_of_parts(
                    c.dct8,
                    c.dct16x16,
                    c.extras32(),
                    c.extras16(),
                    xs8,
                    rx,
                    ry,
                ).1,
            ),
        ),
{
    let p = choice32_of_parts(c.dct8, c.dct16x16, c.extras32(), c.extras16(), xs8, rx, ry).1;
    law_choice32_of_parts_is_legal(
        c.dct8,
        c.dct16x16,
        c.extras32(),
        c.extras16(),
        xs8,
        rx,
        ry,
    );
    lemma_region32_allowed(c, gates, afv, p);
}

/// A search chooses only transforms that it considers, whatever their costs.
pub proof fn law_only_considered_transforms_are_chosen(
    c: Costs,
    gates: SearchGates,
    afv: bool,
    xs8: int,
    ys8: int,
)
    requires
        xs8 >= 0,
        ys8 >= 0,
        gates.sound(xs8, ys8),
        c.only(gates, afv),
    ensures
        allows_all(gates, afv, c.chosen(gates, xs8, ys8)),
{
    if gates.dct64 {
        let p = c.partitions64(xs8, ys8);
        let regions = Seq::new(p.len(), |i: int| region64(p[i]));
        assert forall|i: int| 0 <= i < regions.len() implies allows_all(
            gates,
            afv,
            #[trigger] regions[i],
        ) by {
            lemma_choice64_allowed(c, gates, afv, xs8, i % (xs8 / 8), i / (xs8 / 8));
        }
        lemma_layout_allowed(gates, afv, regions, xs8 / 8, 8);
    } else if gates.rect32 {
        let p = c.partitions32(gates, xs8, ys8);
        let regions = Seq::new(p.len(), |i: int| region32(p[i]));
        assert forall|i: int| 0 <= i < regions.len() implies allows_all(
            gates,
            afv,
            #[trigger] regions[i],
        ) by {
            crate::partition::lemma_cell_of_index(xs8 / 4, ys8 / 4, i);
            let rx = i % (xs8 / 4);
            let ry = i / (xs8 / 4);
            if gates.dct32 {
                lemma_choice32_allowed(c, gates, afv, c.dct32x32, xs8, rx, ry);
            } else {
                lemma_choice32_of_parts_allowed(c, gates, afv, xs8, rx, ry);
            }
        }
        lemma_layout_allowed(gates, afv, regions, xs8 / 4, 4);
    } else {
        let p = c.partitions16(gates, xs8, ys8);
        let regions = Seq::new(p.len(), |i: int| region16(p[i]));
        assert forall|i: int| 0 <= i < regions.len() implies allows_all(
            gates,
            afv,
            #[trigger] regions[i],
        ) by {
            let rx = i % (xs8 / 2);
            let ry = i / (xs8 / 2);
            if gates.dct16 {
                law_choice16_is_legal(c.dct8, c.dct16x16, c.extras16(), xs8, rx, ry);
            } else {
                lemma_small_choice_legal(c, xs8, rx, ry);
            }
            lemma_region16_allowed(c, gates, afv, p[i]);
        }
        lemma_layout_allowed(gates, afv, regions, xs8 / 2, 2);
    }
}

proof fn lemma_small_choice_legal(c: Costs, xs8: int, rx: int, ry: int)
    ensures
        legal16(c.small_choice(xs8, rx, ry), c.extras16()),
        c.small_choice(xs8, rx, ry) !is Dct16x16,
{
    law_cell_choice_is_considered(c.sub_blocks(), c.dct8, corner(xs8, rx, ry, 0));
    law_cell_choice_is_considered(c.sub_blocks(), c.dct8, corner(xs8, rx, ry, 1));
    law_cell_choice_is_considered(c.sub_blocks(), c.dct8, corner(xs8, rx, ry, 2));
    law_cell_choice_is_considered(c.sub_blocks(), c.dct8, corner(xs8, rx, ry, 3));
}

proof fn lemma_choice64_allowed(c: Costs, gates: SearchGates, afv: bool, xs8: int, rx: int, ry: int)
    requires
        c.only(gates, afv),
        gates.dct16,
        gates.rect32,
        gates.dct32,
        gates.dct64,
    ensures
        allows_all(
            gates,
            afv,
            region64(
                choice64(
                    c.dct8,
                    c.dct16x16,
                    c.dct32x32,
                    c.dct64x64,
                    c.extras32(),
                    c.extras64(),
                    c.extras16(),
                    xs8,
                    rx,
                    ry,
                ).1,
            ),
        ),
{
    reveal(choice64);
    let p = choice64(
        c.dct8,
        c.dct16x16,
        c.dct32x32,
        c.dct64x64,
        c.extras32(),
        c.extras64(),
        c.extras16(),
        xs8,
        rx,
        ry,
    ).1;
    if let Partition64x64::Sub32x32(subs) = p {
        let regions = Seq::new(4, |i: int| region32(subs@[i]));
        assert forall|k: int| 0 <= k < regions.len() implies allows_all(
            gates,
            afv,
            #[trigger] regions[k],
        ) by {
            lemma_choice32_allowed(
                c,
                gates,
                afv,
                c.dct32x32,
                xs8,
                2 * rx + k % 2,
                2 * ry + k / 2,
            );
            assert(subs@[k] == sub_choice32(
                c.dct8,
                c.dct16x16,
                c.dct32x32,
                c.extras32(),
                c.extras16(),
                xs8,
                rx,
                ry,
                k,
            ));
        }
        lemma_layout_allowed(gates, afv, regions, 2, 4);
    }
}

/// Whether none of the jobs is this one.
spec fn lacks(jobs: Seq<CostJob>, job: CostJob) -> bool {
    forall|i: int| 0 <= i < jobs.len() ==> #[trigger] jobs[i] != job
}

proof fn lemma_lacking(jobs: Seq<CostJob>, replies: Seq<Seq<Float32>>)
    ensures
        lacks(jobs, CostJob::Dct16x8) ==> collected(jobs, replies).dct16x8.len() == 0,
        lacks(jobs, CostJob::Dct8x16) ==> collected(jobs, replies).dct8x16.len() == 0,
        lacks(jobs, CostJob::Afv) ==> collected(jobs, replies).afv.len() == 0,
    decreases jobs.len(),
{
    if jobs.len() > 0 {
        let before = jobs.drop_last();
        lemma_lacking(before, replies.drop_last());
        lemma_lacks_prefix(jobs, CostJob::Dct16x8);
        lemma_lacks_prefix(jobs, CostJob::Dct8x16);
        lemma_lacks_prefix(jobs, CostJob::Afv);
    }
}

proof fn lemma_lacks_prefix(jobs: Seq<CostJob>, job: CostJob)
    requires
        jobs.len() > 0,
    ensures
        lacks(jobs, job) ==> lacks(jobs.drop_last(), job) && jobs.last() != job,
{
    if lacks(jobs, job) {
        assert(jobs[jobs.len() - 1] != job);
        assert forall|i: int| 0 <= i < jobs.len() - 1 implies #[trigger] jobs.drop_last()[i]
            != job by {
            assert(jobs[i] != job);
        }
    }
}

proof fn lemma_lacks_sum(a: Seq<CostJob>, b: Seq<CostJob>, job: CostJob)
    requires
        lacks(a, job),
        lacks(b, job),
    ensures
        lacks(a + b, job),
{
    let s = a + b;
    assert forall|i: int| 0 <= i < s.len() implies #[trigger] s[i] != job by {
        if i < a.len() {
            assert(s[i] == a[i]);
        } else {
            assert(s[i] == b[i - a.len()]);
        }
    }
}

proof fn lemma_unasked(gates: SearchGates, scales: SearchScales, afv: bool, job: CostJob)
    requires
        job == CostJob::Dct16x8 || job == CostJob::Dct8x16 || job == CostJob::Afv,
        job == CostJob::Afv ==> !afv,
        job != CostJob::Afv ==> !gates.dct16,
    ensures
        lacks(jobs_of(gates, scales, afv), job),
{
    reveal(jobs_of);
    reveal(jobs_if);
    reveal(sub_block_jobs);
    let a0 = seq![CostJob::Dct8];
    let b1 = jobs_if(gates.dct16, seq![CostJob::Dct16x16]);
    let b2 = sub_block_jobs(subblock_specs_of(gates, scales));
    let b3 = jobs_if(afv, seq![CostJob::Afv]);
    let b4 = jobs_if(gates.dct16, seq![CostJob::Dct16x8, CostJob::Dct8x16]);
    let b5 = jobs_if(gates.dct32, seq![CostJob::Dct32x32(float(ENTROPY_MUL_DCT32X32))]);
    let b6 = jobs_if(gates.rect32, seq![CostJob::Dct32x16, CostJob::Dct16x32]);
    let b7 = jobs_if(
        gates.dct64,
        seq![CostJob::Dct64x64, CostJob::Dct64x32, CostJob::Dct32x64],
    );
    lemma_lacks_sum(a0, b1, job);
    lemma_lacks_sum(a0 + b1, b2, job);
    lemma_lacks_sum(a0 + b1 + b2, b3, job);
    lemma_lacks_sum(a0 + b1 + b2 + b3, b4, job);
    lemma_lacks_sum(a0 + b1 + b2 + b3 + b4, b5, job);
    lemma_lacks_sum(a0 + b1 + b2 + b3 + b4 + b5, b6, job);
    lemma_lacks_sum(a0 + b1 + b2 + b3 + b4 + b5 + b6, b7, job);
}

/// What a search asks for is all that it weighs: there are costs only for
/// transforms that it considers, whatever came back.
pub proof fn law_only_considered_costs_are_weighed(
    gates: SearchGates,
    scales: SearchScales,
    afv: bool,
    replies: Seq<Seq<Float32>>,
)
    ensures
        weighed(collected(jobs_of(gates, scales, afv), replies), gates, scales).only(gates, afv),
{
    let jobs = jobs_of(gates, scales, afv);
    lemma_lacking(jobs, replies);
    if !gates.dct16 {
        lemma_unasked(gates, scales, afv, CostJob::Dct16x8);
        lemma_unasked(gates, scales, afv, CostJob::Dct8x16);
    }
    if !afv {
        lemma_unasked(gates, scales, afv, CostJob::Afv);
    }
}

/// Up to an effort of four, without the AFV transforms, every block is a DCT8.
pub proof fn law_low_effort_is_dct8_only(
    c: Costs,
    effort: int,
    padded_width: int,
    padded_height: int,
)
    requires
        effort <= 4,
        padded_width >= 0,
        padded_height >= 0,
        padded_width % 16 == 0,
        padded_height % 16 == 0,
        c.only(gates_at(effort, padded_width, padded_height), false),
    ensures
        forall|i: int|
            0 <= i < c.chosen(
                gates_at(effort, padded_width, padded_height),
                padded_width / 8,
                padded_height / 8,
            ).len() ==> (#[trigger] c.chosen(
                gates_at(effort, padded_width, padded_height),
                padded_width / 8,
                padded_height / 8,
            )[i]).2 == RAW_STRATEGY_DCT,
{
    law_gates_are_sound(effort, padded_width, padded_height);
    law_only_considered_transforms_are_chosen(
        c,
        gates_at(effort, padded_width, padded_height),
        false,
        padded_width / 8,
        padded_height / 8,
    );
}

proof fn lemma_blocks_across(n: int)
    requires
        n % 16 == 0,
    ensures
        (n / 8) % 2 == 0,
        n % 32 == 0 ==> (n / 8) % 4 == 0,
        n % 64 == 0 ==> (n / 8) % 8 == 0,
        n % 64 == 0 ==> n % 32 == 0,
{
    let k = n / 16;
    assert(n == 16 * k);
    assert(n / 8 == 2 * k);
    if n % 32 == 0 {
        assert(n == 32 * (n / 32));
    }
    if n % 64 == 0 {
        assert(n == 64 * (n / 64));
    }
}

/// The transforms that an encoder considers fit its images.
pub proof fn law_gates_are_sound(effort: int, padded_width: int, padded_height: int)
    requires
        padded_width % 16 == 0,
        padded_height % 16 == 0,
    ensures
        gates_at(effort, padded_width, padded_height).sound(padded_width / 8, padded_height / 8),
{
    lemma_blocks_across(padded_width);
    lemma_blocks_across(padded_height);
}

/// From what a search asks for to what it chooses: it ends with transforms that
/// it considers, whatever costs come back.
pub proof fn law_search_keeps_to_what_it_considers(
    effort: int,
    padded_width: int,
    padded_height: int,
    scales: SearchScales,
    afv: bool,
    replies: Seq<Seq<Float32>>,
)
    requires
        padded_width >= 0,
        padded_height >= 0,
        padded_width % 16 == 0,
        padded_height % 16 == 0,
    ensures
        ({
            let gates = gates_at(effort, padded_width, padded_height);
            let costs = weighed(collected(jobs_of(gates, scales, afv), replies), gates, scales);
            allows_all(gates, afv, costs.chosen(gates, padded_width / 8, padded_height / 8))
        }),
{
    let gates = gates_at(effort, padded_width, padded_height);
    let costs = weighed(collected(jobs_of(gates, scales, afv), replies), gates, scales);
    law_gates_are_sound(effort, padded_width, padded_height);
    law_only_considered_costs_are_weighed(gates, scales, afv, replies);
    law_only_considered_transforms_are_chosen(
        costs,
        gates,
        afv,
        padded_width / 8,
        padded_height / 8,
    );
}

/// Without the AFV transforms, an effort of five gives DCT8, DCT16x16, DCT16x8,
/// DCT8x16, DCT4x4, DCT2x2 and the identity transform alone, whatever costs come
/// back. An effort of six gives neither DCT32x32 nor anything larger.
pub proof fn law_middle_efforts(
    effort: int,
    padded_width: int,
    padded_height: int,
    scales: SearchScales,
    afv: bool,
    replies: Seq<Seq<Float32>>,
    i: int,
)
    requires
        5 <= effort <= 6,
        padded_width >= 0,
        padded_height >= 0,
        padded_width % 16 == 0,
        padded_height % 16 == 0,
        ({
            let gates = gates_at(effort, padded_width, padded_height);
            let costs = weighed(collected(jobs_of(gates, scales, afv), replies), gates, scales);
            0 <= i < costs.chosen(gates, padded_width / 8, padded_height / 8).len()
        }),
    ensures
        ({
            let gates = gates_at(effort, padded_width, padded_height);
            let costs = weighed(collected(jobs_of(gates, scales, afv), replies), gates, scales);
            let code = costs.chosen(gates, padded_width / 8, padded_height / 8)[i].2;
            &&& code != RAW_STRATEGY_DCT32X32
            &&& code != RAW_STRATEGY_DCT64X64
            &&& code != RAW_STRATEGY_DCT64X32
            &&& code != RAW_STRATEGY_DCT32X64
            &&& effort == 5 && !afv ==> {
                ||| code == RAW_STRATEGY_DCT
                ||| code == RAW_STRATEGY_DCT16X16
                ||| code == RAW_STRATEGY_DCT16X8
                ||| code == RAW_STRATEGY_DCT8X16
                ||| code == RAW_STRATEGY_DCT4X4
                ||| code == RAW_STRATEGY_DCT2X2
                ||| code == RAW_STRATEGY_IDENTITY
            }
        }),
{
    let gates = gates_at(effort, padded_width, padded_height);
    let costs = weighed(collected(jobs_of(gates, scales, afv), replies), gates, scales);
    law_search_keeps_to_what_it_considers(
        effort,
        padded_width,
        padded_height,
        scales,
        afv,
        replies,
    );
    let all = costs.chosen(gates, padded_width / 8, padded_height / 8);
    assert(allows(gates, afv, all[i].2));
}

/// The entropy multiplier of a transform within 8x8 blocks.
pub open spec fn entropy_mul_of(scales: SearchScales, code: u8) -> Float32 {
    if code == RAW_STRATEGY_DCT4X4 {
        scales.entropy_mul_dct4x4
    } else if code == RAW_STRATEGY_IDENTITY {
        scales.entropy_mul_identity
    } else if code == RAW_STRATEGY_DCT2X2 {
        scales.entropy_mul_dct2x2
    } else {
        scales.entropy_mul_dct4x8
    }
}

/// A search asks for the costs of every transform within 8x8 blocks that it
/// considers, and of no other, with the entropy multiplier of that transform.
pub proof fn law_each_transform_has_its_entropy_multiplier(
    gates: SearchGates,
    scales: SearchScales,
    code: u8,
)
    ensures
        ({
            let spec = SubblockStratSpec {
                raw_strategy: code,
                entropy_mul: entropy_mul_of(scales, code),
            };
            &&& subblock_specs_of(gates, scales).contains(spec) <==> {
                ||| gates.sub_blocks && (code == RAW_STRATEGY_DCT4X4 || code
                    == RAW_STRATEGY_IDENTITY || code == RAW_STRATEGY_DCT2X2)
                ||| gates.dct4x8 && (code == RAW_STRATEGY_DCT4X8 || code == RAW_STRATEGY_DCT8X4)
            }
            &&& forall|i: int|
                0 <= i < subblock_specs_of(gates, scales).len() && (#[trigger] subblock_specs_of(
                    gates,
                    scales,
                )[i]).raw_strategy == code ==> subblock_specs_of(gates, scales)[i] == spec
        }),
{
    let specs = subblock_specs_of(gates, scales);
    let spec = SubblockStratSpec { raw_strategy: code, entropy_mul: entropy_mul_of(scales, code) };
    let p: int = if gates.sub_blocks {
        1
    } else {
        0
    };
    let q: int = if gates.dct4x8 {
        p + 2
    } else {
        p
    };
    if gates.sub_blocks {
        assert(specs[0].raw_strategy == RAW_STRATEGY_DCT4X4);
        assert(specs[q].raw_strategy == RAW_STRATEGY_IDENTITY);
        assert(specs[q + 1].raw_strategy == RAW_STRATEGY_DCT2X2);
    }
    if gates.dct4x8 {
        assert(specs[p].raw_strategy == RAW_STRATEGY_DCT4X8);
        assert(specs[p + 1].raw_strategy == RAW_STRATEGY_DCT8X4);
    }
}

} // verus!

//! What the transforms that a search chooses cost, by the costs that came back
//! for them.

use crate::assignment::{layout, region16, region32, region64, shifted, Placement};
use crate::float::{product, sum, Float32};
use crate::lossy_encoder::LossyEncoder;
use crate::partition::{
    cells_choice, choice32_of_parts, corner, legal16, lemma_region, partition16_cost,
    partition32_cost, Partition16x16, Partition32x32, Partition64x64, SubStrategy,
};
use crate::partition_laws::{
    law_cell_choice_is_considered, law_cell_choice_is_least, law_choice16_is_least,
    law_choice16_is_legal, law_choice32_is_least, law_choice32_is_legal,
    law_choice32_of_parts_is_least, law_choice32_of_parts_is_legal, law_choice64_is_least,
    law_choice64_is_legal, legal32, legal64, lemma_sum4_monotone, partition64_cost,
};
use crate::search::{gates_at, subblock_specs_of, SearchGates, SearchScales, SubblockStratSpec};
use crate::search_costs::{collected, jobs_if, jobs_of, sub_block_jobs, weighed, CostJob, Costs};
use crate::search_flow::costs_suit;
use crate::search_laws::{allows, law_gates_are_sound};
use crate::strategy::{
    RAW_STRATEGY_AFV0, RAW_STRATEGY_AFV1, RAW_STRATEGY_AFV2, RAW_STRATEGY_AFV3, RAW_STRATEGY_DCT,
    RAW_STRATEGY_DCT16X16, RAW_STRATEGY_DCT16X32, RAW_STRATEGY_DCT16X8, RAW_STRATEGY_DCT2X2,
    RAW_STRATEGY_DCT32X16, RAW_STRATEGY_DCT32X32, RAW_STRATEGY_DCT32X64, RAW_STRATEGY_DCT4X4,
    RAW_STRATEGY_DCT4X8, RAW_STRATEGY_DCT64X32, RAW_STRATEGY_DCT64X64, RAW_STRATEGY_DCT8X16,
    RAW_STRATEGY_DCT8X4, RAW_STRATEGY_IDENTITY,
};
use vstd::prelude::*;

verus! {

/// Whether a job asks for the costs of the transform with a code.
pub open spec fn asks_for(job: CostJob, code: u8) -> bool {
    match job {
        CostJob::Dct8 => code == RAW_STRATEGY_DCT,
        CostJob::Dct16x16 => code == RAW_STRATEGY_DCT16X16,
        CostJob::SubBlock(spec) => code == spec.raw_strategy,
        CostJob::Afv => code == RAW_STRATEGY_AFV0 || code == RAW_STRATEGY_AFV1 || code
            == RAW_STRATEGY_AFV2 || code == RAW_STRATEGY_AFV3,
        CostJob::Dct16x8 => code == RAW_STRATEGY_DCT16X8,
        CostJob::Dct8x16 => code == RAW_STRATEGY_DCT8X16,
        CostJob::Dct32x32(_) => code == RAW_STRATEGY_DCT32X32,
        CostJob::Dct32x16 => code == RAW_STRATEGY_DCT32X16,
        CostJob::Dct16x32 => code == RAW_STRATEGY_DCT16X32,
        CostJob::Dct64x64 => code == RAW_STRATEGY_DCT64X64,
        CostJob::Dct64x32 => code == RAW_STRATEGY_DCT64X32,
        CostJob::Dct32x64 => code == RAW_STRATEGY_DCT32X64,
    }
}

/// The costs that came back for the transform with a code; none where no job
/// asked for them.
pub open spec fn reply_for(jobs: Seq<CostJob>, replies: Seq<Seq<Float32>>, code: u8) -> Seq<
    Float32,
>
    decreases jobs.len(),
{
    if jobs.len() == 0 {
        Seq::empty()
    } else if asks_for(jobs.last(), code) {
        replies.last()
    } else {
        reply_for(jobs.drop_last(), replies.drop_last(), code)
    }
}

/// What the costs of a transform are multiplied by: those of DCT8 by a factor
/// of their own, all others by one for the size of the region that they are
/// chosen in.
pub open spec fn multiplier(scales: SearchScales, code: u8) -> Float32 {
    if code == RAW_STRATEGY_DCT {
        scales.mul_8x8
    } else if code == RAW_STRATEGY_DCT32X32 || code == RAW_STRATEGY_DCT32X16 || code
        == RAW_STRATEGY_DCT16X32 {
        scales.dist_bias_32
    } else if code == RAW_STRATEGY_DCT64X64 || code == RAW_STRATEGY_DCT64X32 || code
        == RAW_STRATEGY_DCT32X64 {
        scales.dist_bias_64
    } else {
        scales.dist_bias
    }
}

/// Where the costs of a transform start in what came back for it: the four AFV
/// transforms come one after the other, with `n` costs each.
pub open spec fn offset(code: u8, n: int) -> int {
    if code == RAW_STRATEGY_AFV1 {
        n
    } else if code == RAW_STRATEGY_AFV2 {
        2 * n
    } else if code == RAW_STRATEGY_AFV3 {
        3 * n
    } else {
        0
    }
}

/// The list that holds the costs of the transform with a code.
pub open spec fn own_list(c: Costs, code: u8) -> Seq<Float32> {
    if code == RAW_STRATEGY_DCT {
        c.dct8
    } else if code == RAW_STRATEGY_DCT16X16 {
        c.dct16x16
    } else if code == RAW_STRATEGY_DCT16X8 {
        c.dct16x8
    } else if code == RAW_STRATEGY_DCT8X16 {
        c.dct8x16
    } else if code == RAW_STRATEGY_DCT4X4 {
        c.dct4x4
    } else if code == RAW_STRATEGY_DCT4X8 {
        c.dct4x8
    } else if code == RAW_STRATEGY_DCT8X4 {
        c.dct8x4
    } else if code == RAW_STRATEGY_IDENTITY {
        c.identity
    } else if code == RAW_STRATEGY_DCT2X2 {
        c.dct2x2
    } else if code == RAW_STRATEGY_AFV0 {
        c.afv0
    } else if code == RAW_STRATEGY_AFV1 {
        c.afv1
    } else if code == RAW_STRATEGY_AFV2 {
        c.afv2
    } else if code == RAW_STRATEGY_AFV3 {
        c.afv3
    } else if code == RAW_STRATEGY_DCT32X32 {
        c.dct32x32
    } else if code == RAW_STRATEGY_DCT32X16 {
        c.dct32x16
    } else if code == RAW_STRATEGY_DCT16X32 {
        c.dct16x32
    } else if code == RAW_STRATEGY_DCT64X64 {
        c.dct64x64
    } else if code == RAW_STRATEGY_DCT64X32 {
        c.dct64x32
    } else if code == RAW_STRATEGY_DCT32X64 {
        c.dct32x64
    } else {
        Seq::empty()
    }
}

/// Whether a code is that of a transform within 8x8 blocks, DCT8 and the AFV
/// transforms aside.
spec fn sub_code(code: u8) -> bool {
    code == RAW_STRATEGY_DCT4X4 || code == RAW_STRATEGY_DCT4X8 || code == RAW_STRATEGY_DCT8X4
        || code == RAW_STRATEGY_IDENTITY || code == RAW_STRATEGY_DCT2X2
}

/// Whether the jobs within 8x8 blocks are for such transforms.
spec fn plain_jobs(jobs: Seq<CostJob>) -> bool {
    forall|j: int|
        0 <= j < jobs.len() ==> ((#[trigger] jobs[j]) matches CostJob::SubBlock(spec) ==> sub_code(
            spec.raw_strategy,
        ))
}

/// The codes of the jobs within 8x8 blocks.
spec fn sub_codes(jobs: Seq<CostJob>) -> Seq<u8>
    decreases jobs.len(),
{
    if jobs.len() == 0 {
        Seq::empty()
    } else {
        let before = sub_codes(jobs.drop_last());
        match jobs.last() {
            CostJob::SubBlock(spec) => before.push(spec.raw_strategy),
            _ => before,
        }
    }
}

/// Costs that came back are found by their codes.
proof fn lemma_found(jobs: Seq<CostJob>, replies: Seq<Seq<Float32>>)
    requires
        replies.len() == jobs.len(),
        plain_jobs(jobs),
    ensures
        ({
            let r = collected(jobs, replies);
            &&& r.dct8 == reply_for(jobs, replies, RAW_STRATEGY_DCT)
            &&& r.dct16x16 == reply_for(jobs, replies, RAW_STRATEGY_DCT16X16)
            &&& r.dct16x8 == reply_for(jobs, replies, RAW_STRATEGY_DCT16X8)
            &&& r.dct8x16 == reply_for(jobs, replies, RAW_STRATEGY_DCT8X16)
            &&& r.afv == reply_for(jobs, replies, RAW_STRATEGY_AFV0)
            &&& r.afv == reply_for(jobs, replies, RAW_STRATEGY_AFV1)
            &&& r.afv == reply_for(jobs, replies, RAW_STRATEGY_AFV2)
            &&& r.afv == reply_for(jobs, replies, RAW_STRATEGY_AFV3)
            &&& r.dct32x32 == reply_for(jobs, replies, RAW_STRATEGY_DCT32X32)
            &&& r.dct32x16 == reply_for(jobs, replies, RAW_STRATEGY_DCT32X16)
            &&& r.dct16x32 == reply_for(jobs, replies, RAW_STRATEGY_DCT16X32)
            &&& r.dct64x64 == reply_for(jobs, replies, RAW_STRATEGY_DCT64X64)
            &&& r.dct64x32 == reply_for(jobs, replies, RAW_STRATEGY_DCT64X32)
            &&& r.dct32x64 == reply_for(jobs, replies, RAW_STRATEGY_DCT32X64)
        }),
    decreases jobs.len(),
{
    if jobs.len() > 0 {
        let before = jobs.drop_last();
        assert forall|j: int| 0 <= j < before.len() implies ((#[trigger] before[j]) matches
            CostJob::SubBlock(spec) ==> sub_code(spec.raw_strategy)) by {
            assert(before[j] == jobs[j]);
        }
        lemma_found(before, replies.drop_last());
        assert(jobs.last() == jobs[jobs.len() - 1]);
    }
}

/// The same of the transforms within 8x8 blocks, which are told apart by their
/// order.
proof fn lemma_sub_found(jobs: Seq<CostJob>, replies: Seq<Seq<Float32>>, k: int)
    requires
        replies.len() == jobs.len(),
        plain_jobs(jobs),
        0 <= k < sub_codes(jobs).len(),
        forall|i: int|
            k < i < sub_codes(jobs).len() ==> #[trigger] sub_codes(jobs)[i] != sub_codes(jobs)[k],
    ensures
        collected(jobs, replies).sub_blocks.len() == sub_codes(jobs).len(),
        collected(jobs, replies).sub_blocks[k] == reply_for(jobs, replies, sub_codes(jobs)[k]),
    decreases jobs.len(),
{
    let before = jobs.drop_last();
    assert forall|j: int| 0 <= j < before.len() implies ((#[trigger] before[j]) matches
        CostJob::SubBlock(spec) ==> sub_code(spec.raw_strategy)) by {
        assert(before[j] == jobs[j]);
    }
    assert(jobs.last() == jobs[jobs.len() - 1]);
    lemma_sub_count(before, replies.drop_last());
    lemma_sub_codes(jobs, k);
    let codes = sub_codes(before);
    if k < codes.len() {
        assert forall|i: int| k < i < codes.len() implies #[trigger] codes[i] != codes[k] by {
            assert(sub_codes(jobs)[i] == codes[i]);
        }
        lemma_sub_found(before, replies.drop_last(), k);
        if jobs.last() is SubBlock {
            assert(sub_codes(jobs)[codes.len() as int] != sub_codes(jobs)[k]);
        }
    }
}

proof fn lemma_sub_count(jobs: Seq<CostJob>, replies: Seq<Seq<Float32>>)
    requires
        replies.len() == jobs.len(),
    ensures
        collected(jobs, replies).sub_blocks.len() == sub_codes(jobs).len(),
    decreases jobs.len(),
{
    if jobs.len() > 0 {
        lemma_sub_count(jobs.drop_last(), replies.drop_last());
    }
}

proof fn lemma_sub_codes(jobs: Seq<CostJob>, k: int)
    requires
        plain_jobs(jobs),
        0 <= k < sub_codes(jobs).len(),
    ensures
        sub_code(sub_codes(jobs)[k]),
    decreases jobs.len(),
{
    let before = jobs.drop_last();
    assert forall|j: int| 0 <= j < before.len() implies ((#[trigger] before[j]) matches
        CostJob::SubBlock(spec) ==> sub_code(spec.raw_strategy)) by {
        assert(before[j] == jobs[j]);
    }
    assert(jobs.last() == jobs[jobs.len() - 1]);
    if k < sub_codes(before).len() {
        lemma_sub_codes(before, k);
    }
}

/// A code that no job within 8x8 blocks has, and that only such a job could
/// have, finds nothing.
proof fn lemma_not_found(jobs: Seq<CostJob>, replies: Seq<Seq<Float32>>, code: u8)
    requires
        replies.len() == jobs.len(),
        sub_code(code),
        forall|i: int| 0 <= i < sub_codes(jobs).len() ==> #[trigger] sub_codes(jobs)[i] != code,
    ensures
        reply_for(jobs, replies, code).len() == 0,
    decreases jobs.len(),
{
    if jobs.len() > 0 {
        let before = jobs.drop_last();
        let codes = sub_codes(before);
        assert forall|i: int| 0 <= i < codes.len() implies #[trigger] codes[i] != code by {
            assert(sub_codes(jobs)[i] == codes[i]);
        }
        if jobs.last() is SubBlock {
            assert(sub_codes(jobs)[codes.len() as int] != code);
        }
        lemma_not_found(before, replies.drop_last(), code);
    }
}

proof fn lemma_sub_codes_add(a: Seq<CostJob>, b: Seq<CostJob>)
    ensures
        sub_codes(a + b) == sub_codes(a) + sub_codes(b),
    decreases b.len(),
{
    if b.len() == 0 {
        assert(a + b =~= a);
        assert(sub_codes(a) + sub_codes(b) =~= sub_codes(a));
    } else {
        assert((a + b).drop_last() =~= a + b.drop_last());
        assert((a + b).last() == b.last());
        lemma_sub_codes_add(a, b.drop_last());
        assert(sub_codes(a + b) =~= sub_codes(a) + sub_codes(b));
    }
}

/// Jobs none of which is within 8x8 blocks.
proof fn lemma_no_sub_codes(a: Seq<CostJob>)
    requires
        forall|j: int| 0 <= j < a.len() ==> !((#[trigger] a[j]) is SubBlock),
    ensures
        sub_codes(a) == Seq::<u8>::empty(),
    decreases a.len(),
{
    if a.len() > 0 {
        let before = a.drop_last();
        assert forall|j: int| 0 <= j < before.len() implies !((
        #[trigger] before[j]) is SubBlock) by {
            assert(before[j] == a[j]);
        }
        lemma_no_sub_codes(before);
        assert(a.last() == a[a.len() - 1]);
    }
}

proof fn lemma_spec_codes(specs: Seq<SubblockStratSpec>)
    ensures
        sub_codes(sub_block_jobs(specs)) == Seq::new(specs.len(), |i: int| specs[i].raw_strategy),
    decreases specs.len(),
{
    reveal(sub_block_jobs);
    let jobs = sub_block_jobs(specs);
    let codes = Seq::new(specs.len(), |i: int| specs[i].raw_strategy);
    if specs.len() > 0 {
        let before = specs.drop_last();
        lemma_spec_codes(before);
        assert(jobs.drop_last() =~= sub_block_jobs(before));
        assert(codes =~= Seq::new(before.len(), |i: int| before[i].raw_strategy).push(
            specs.last().raw_strategy,
        ));
    } else {
        assert(jobs =~= Seq::<CostJob>::empty());
        assert(codes =~= Seq::<u8>::empty());
    }
}

/// The codes of a search's jobs within 8x8 blocks.
#[verifier::rlimit(40)]
proof fn lemma_search_jobs(gates: SearchGates, scales: SearchScales, afv: bool)
    ensures
        ({
            let jobs = jobs_of(gates, scales, afv);
            let specs = subblock_specs_of(gates, scales);
            &&& plain_jobs(jobs)
            &&& sub_codes(jobs) == Seq::new(specs.len(), |i: int| specs[i].raw_strategy)
        }),
{
    reveal(jobs_of);
    reveal(jobs_if);
    reveal(sub_block_jobs);
    let specs = subblock_specs_of(gates, scales);
    let a0 = seq![CostJob::Dct8];
    let a1 = jobs_if(gates.dct16, seq![CostJob::Dct16x16]);
    let a2 = sub_block_jobs(specs);
    let a3 = jobs_if(afv, seq![CostJob::Afv]);
    let a4 = jobs_if(gates.dct16, seq![CostJob::Dct16x8, CostJob::Dct8x16]);
    let a5 = jobs_if(
        gates.dct32,
        seq![CostJob::Dct32x32(crate::quality::float(crate::search::ENTROPY_MUL_DCT32X32))],
    );
    let a6 = jobs_if(gates.rect32, seq![CostJob::Dct32x16, CostJob::Dct16x32]);
    let a7 = jobs_if(
        gates.dct64,
        seq![CostJob::Dct64x64, CostJob::Dct64x32, CostJob::Dct32x64],
    );
    lemma_no_sub_codes(a0);
    lemma_no_sub_codes(a1);
    lemma_spec_codes(specs);
    lemma_no_sub_codes(a3);
    lemma_no_sub_codes(a4);
    lemma_no_sub_codes(a5);
    lemma_no_sub_codes(a6);
    lemma_no_sub_codes(a7);
    lemma_sub_codes_add(a0, a1);
    lemma_sub_codes_add(a0 + a1, a2);
    lemma_sub_codes_add(a0 + a1 + a2, a3);
    lemma_sub_codes_add(a0 + a1 + a2 + a3, a4);
    lemma_sub_codes_add(a0 + a1 + a2 + a3 + a4, a5);
    lemma_sub_codes_add(a0 + a1 + a2 + a3 + a4 + a5, a6);
    lemma_sub_codes_add(a0 + a1 + a2 + a3 + a4 + a5 + a6, a7);
    let jobs = jobs_of(gates, scales, afv);
    assert(jobs == a0 + a1 + a2 + a3 + a4 + a5 + a6 + a7);
    let codes = Seq::new(specs.len(), |i: int| specs[i].raw_strategy);
    assert(sub_codes(jobs) =~= codes);
    assert forall|j: int| 0 <= j < jobs.len() implies ((#[trigger] jobs[j]) matches
        CostJob::SubBlock(spec) ==> sub_code(spec.raw_strategy)) by {
        let n = a0.len() + a1.len();
        if n <= j < n + a2.len() {
            assert(jobs[j] == CostJob::SubBlock(specs[j - n]));
        } else {
            assert(!(jobs[j] is SubBlock));
        }
    }
}

/// The costs that a choice is made by are those that came back for the
/// transform's own job, each times the transform's own multiplier.
#[verifier::rlimit(40)]
pub proof fn law_costs_are_those_asked_for(
    gates: SearchGates,
    scales: SearchScales,
    afv: bool,
    replies: Seq<Seq<Float32>>,
    code: u8,
    i: int,
)
    requires
        replies.len() == jobs_of(gates, scales, afv).len(),
        ({
            let raw = collected(jobs_of(gates, scales, afv), replies);
            raw.afv.len() == 0 || raw.afv.len() == 4 * raw.dct8.len()
        }),
        gates.dct4x8 ==> gates.sub_blocks,
        code <= RAW_STRATEGY_DCT32X64,
    ensures
        ({
            let jobs = jobs_of(gates, scales, afv);
            let raw = collected(jobs, replies);
            let list = own_list(weighed(raw, gates, scales), code);
            let reply = reply_for(jobs, replies, code);
            let n = raw.dct8.len() as int;
            &&& 0 <= i < list.len() ==> list[i] == product(
                reply[i + offset(code, n)],
                multiplier(scales, code),
            )
            &&& list.len() == if reply.len() > 0 && asks_for(CostJob::Afv, code) {
                n
            } else {
                reply.len() as int
            }
        }),
{
    let jobs = jobs_of(gates, scales, afv);
    let raw = collected(jobs, replies);
    let c = weighed(raw, gates, scales);
    let specs = subblock_specs_of(gates, scales);
    let codes = sub_codes(jobs);
    lemma_search_jobs(gates, scales, afv);
    lemma_found(jobs, replies);
    lemma_sub_count(jobs, replies);
    if gates.sub_blocks {
        if gates.dct4x8 {
            assert(codes =~= seq![
                RAW_STRATEGY_DCT4X4,
                RAW_STRATEGY_DCT4X8,
                RAW_STRATEGY_DCT8X4,
                RAW_STRATEGY_IDENTITY,
                RAW_STRATEGY_DCT2X2,
            ]);
            lemma_sub_found(jobs, replies, 0);
            lemma_sub_found(jobs, replies, 1);
            lemma_sub_found(jobs, replies, 2);
            lemma_sub_found(jobs, replies, 3);
            lemma_sub_found(jobs, replies, 4);
        } else {
            assert(codes =~= seq![RAW_STRATEGY_DCT4X4, RAW_STRATEGY_IDENTITY, RAW_STRATEGY_DCT2X2]);
            lemma_sub_found(jobs, replies, 0);
            lemma_sub_found(jobs, replies, 1);
            lemma_sub_found(jobs, replies, 2);
            lemma_not_found(jobs, replies, RAW_STRATEGY_DCT4X8);
            lemma_not_found(jobs, replies, RAW_STRATEGY_DCT8X4);
        }
    } else {
        assert(codes =~= Seq::<u8>::empty());
        lemma_not_found(jobs, replies, RAW_STRATEGY_DCT4X4);
        lemma_not_found(jobs, replies, RAW_STRATEGY_DCT4X8);
        lemma_not_found(jobs, replies, RAW_STRATEGY_DCT8X4);
        lemma_not_found(jobs, replies, RAW_STRATEGY_IDENTITY);
        lemma_not_found(jobs, replies, RAW_STRATEGY_DCT2X2);
    }
}

/// The columns and rows of 8x8 blocks that a transform takes up.
pub open spec fn span(code: u8) -> (int, int) {
    if code == RAW_STRATEGY_DCT16X8 {
        (1, 2)
    } else if code == RAW_STRATEGY_DCT8X16 {
        (2, 1)
    } else if code == RAW_STRATEGY_DCT16X16 {
        (2, 2)
    } else if code == RAW_STRATEGY_DCT32X16 {
        (2, 4)
    } else if code == RAW_STRATEGY_DCT16X32 {
        (4, 2)
    } else if code == RAW_STRATEGY_DCT32X32 {
        (4, 4)
    } else if code == RAW_STRATEGY_DCT64X32 {
        (4, 8)
    } else if code == RAW_STRATEGY_DCT32X64 {
        (8, 4)
    } else if code == RAW_STRATEGY_DCT64X64 {
        (8, 8)
    } else {
        (1, 1)
    }
}

/// Costs added up in turn.
pub open spec fn in_turn(s: Seq<Float32>) -> Float32
    decreases s.len(),
{
    if s.len() <= 1 {
        s[0]
    } else {
        sum(in_turn(s.drop_last()), s.last())
    }
}

/// Whether some placements are all among others.
pub open spec fn holds(all: Seq<Placement>, s: Seq<Placement>) -> bool {
    forall|j: int| 0 <= j < s.len() ==> all.contains(#[trigger] s[j])
}

/// Whether a 32x32 region, the one at (`rx`, `ry`) of the image, is partitioned
/// in a given way.
pub open spec fn holds32(all: Seq<Placement>, p: Partition32x32, rx: int, ry: int) -> bool {
    match p {
        Partition32x32::Sub16x16(subs) => forall|k: int|
            0 <= k < 4 ==> holds(
                all,
                shifted(region16(#[trigger] subs@[k]), 4 * rx + 2 * (k % 2), 4 * ry + 2 * (k / 2)),
            ),
        _ => holds(all, shifted(region32(p), 4 * rx, 4 * ry)),
    }
}

/// Whether a 64x64 region, the one at (`rx`, `ry`) of the image, is partitioned
/// in a given way.
pub open spec fn holds64(all: Seq<Placement>, p: Partition64x64, rx: int, ry: int) -> bool {
    match p {
        Partition64x64::Sub32x32(subs) => forall|k: int|
            0 <= k < 4 ==> holds32(all, #[trigger] subs@[k], 2 * rx + k % 2, 2 * ry + k / 2),
        _ => holds(all, shifted(region64(p), 8 * rx, 8 * ry)),
    }
}

/// The jobs of a search in an image of `xs8` by `ys8` 8x8 blocks, and what came
/// back for them.
pub struct Offers {
    pub gates: SearchGates,
    pub scales: SearchScales,
    pub afv: bool,
    pub replies: Seq<Seq<Float32>>,
    pub xs8: int,
    pub ys8: int,
}

impl Offers {
    pub open spec fn jobs(self) -> Seq<CostJob> {
        jobs_of(self.gates, self.scales, self.afv)
    }

    /// The costs that the choice is made by.
    pub open spec fn costs(self) -> Costs {
        weighed(collected(self.jobs(), self.replies), self.gates, self.scales)
    }

    /// The transforms that are chosen.
    pub open spec fn chosen(self) -> Seq<Placement> {
        self.costs().chosen(self.gates, self.xs8, self.ys8)
    }

    /// Whether one list came back for each job, of the length that the image
    /// calls for.
    pub open spec fn complete(self) -> bool {
        let raw = collected(self.jobs(), self.replies);
        &&& self.xs8 >= 0 && self.ys8 >= 0
        &&& self.gates.sound(self.xs8, self.ys8)
        &&& self.gates.dct4x8 ==> self.gates.sub_blocks
        &&& self.replies.len() == self.jobs().len()
        &&& raw.afv.len() == 0 || raw.afv.len() == 4 * raw.dct8.len()
        &&& self.costs().fits(self.gates, self.xs8, self.ys8)
    }

    /// Whether costs came back for a transform.
    pub open spec fn offers(self, code: u8) -> bool {
        reply_for(self.jobs(), self.replies, code).len() > 0
    }

    /// What a transform at a place costs: what came back for it and that place,
    /// times its multiplier.
    pub open spec fn cost(self, p: Placement) -> Float32 {
        let (w, h) = span(p.2);
        let i = (p.1 / h) * (self.xs8 / w) + p.0 / w;
        product(
            reply_for(self.jobs(), self.replies, p.2)[i + offset(p.2, self.xs8 * self.ys8)],
            multiplier(self.scales, p.2),
        )
    }

    /// What some transforms cost together.
    pub open spec fn bill(self, s: Seq<Placement>) -> Float32 {
        in_turn(Seq::new(s.len(), |j: int| self.cost(s[j])))
    }

    pub open spec fn offers_all(self, s: Seq<Placement>) -> bool {
        forall|j: int| 0 <= j < s.len() ==> self.offers((#[trigger] s[j]).2)
    }

    /// Whether costs came back for all transforms of a partition of a 16x16
    /// region.
    pub open spec fn offers16(self, p: Partition16x16) -> bool {
        self.offers_all(region16(p))
    }

    pub open spec fn offers32(self, p: Partition32x32) -> bool {
        match p {
            Partition32x32::Sub16x16(subs) => forall|k: int|
                0 <= k < 4 ==> self.offers16(#[trigger] subs@[k]),
            _ => self.offers_all(region32(p)),
        }
    }

    pub open spec fn offers64(self, p: Partition64x64) -> bool {
        match p {
            Partition64x64::Sub32x32(subs) => forall|k: int|
                0 <= k < 4 ==> self.offers32(#[trigger] subs@[k]),
            _ => self.offers_all(region64(p)),
        }
    }

    /// What the 16x16 region at (`rx`, `ry`) costs when it is partitioned in a
    /// given way.
    pub open spec fn bill16(self, p: Partition16x16, rx: int, ry: int) -> Float32 {
        self.bill(shifted(region16(p), 2 * rx, 2 * ry))
    }

    pub open spec fn bill32(self, p: Partition32x32, rx: int, ry: int) -> Float32 {
        match p {
            Partition32x32::Sub16x16(subs) => in_turn(
                Seq::new(4, |k: int| self.bill16(subs@[k], 2 * rx + k % 2, 2 * ry + k / 2)),
            ),
            _ => self.bill(shifted(region32(p), 4 * rx, 4 * ry)),
        }
    }

    pub open spec fn bill64(self, p: Partition64x64, rx: int, ry: int) -> Float32 {
        match p {
            Partition64x64::Sub32x32(subs) => in_turn(
                Seq::new(4, |k: int| self.bill32(subs@[k], 2 * rx + k % 2, 2 * ry + k / 2)),
            ),
            _ => self.bill(shifted(region64(p), 8 * rx, 8 * ry)),
        }
    }

    /// Whether no partition of the 16x16 region at (`rx`, `ry`) costs less than
    /// a given one.
    pub open spec fn least16(self, p: Partition16x16, rx: int, ry: int) -> bool {
        &&& self.offers16(p)
        &&& forall|q: Partition16x16| #[trigger]
            self.offers16(q) ==> !self.bill16(q, rx, ry).less(self.bill16(p, rx, ry))
    }

    pub open spec fn least32(self, p: Partition32x32, rx: int, ry: int) -> bool {
        &&& self.offers32(p)
        &&& forall|q: Partition32x32| #[trigger]
            self.offers32(q) ==> !self.bill32(q, rx, ry).less(self.bill32(p, rx, ry))
    }

    pub open spec fn least64(self, p: Partition64x64, rx: int, ry: int) -> bool {
        &&& self.offers64(p)
        &&& forall|q: Partition64x64| #[trigger]
            self.offers64(q) ==> !self.bill64(q, rx, ry).less(self.bill64(p, rx, ry))
    }
}

proof fn lemma_in_turn2(s: Seq<Float32>)
    requires
        s.len() == 2,
    ensures
        in_turn(s) == sum(s[0], s[1]),
{
    reveal_with_fuel(in_turn, 2);
}

proof fn lemma_in_turn4(s: Seq<Float32>)
    requires
        s.len() == 4,
    ensures
        in_turn(s) == sum(sum(sum(s[0], s[1]), s[2]), s[3]),
{
    reveal_with_fuel(in_turn, 4);
}

/// What a transform costs stands in its own list.
proof fn lemma_cost(o: Offers, p: Placement, w: int, h: int, x: int, y: int)
    requires
        o.complete(),
        p.2 <= RAW_STRATEGY_DCT32X64,
        span(p.2) == (w, h),
        p.0 == w * x,
        p.1 == h * y,
        0 <= y * (o.xs8 / w) + x < own_list(o.costs(), p.2).len(),
    ensures
        o.cost(p) == own_list(o.costs(), p.2)[y * (o.xs8 / w) + x],
{
    let i = y * (o.xs8 / w) + x;
    vstd::arithmetic::div_mod::lemma_div_multiples_vanish(x, w);
    vstd::arithmetic::div_mod::lemma_div_multiples_vanish(y, h);
    law_costs_are_those_asked_for(o.gates, o.scales, o.afv, o.replies, p.2, i);
}

/// A transform is offered where its list is not empty.
proof fn lemma_offers(o: Offers, code: u8)
    requires
        o.complete(),
        code <= RAW_STRATEGY_DCT32X64,
        o.xs8 * o.ys8 > 0,
    ensures
        o.offers(code) <==> own_list(o.costs(), code).len() > 0,
{
    law_costs_are_those_asked_for(o.gates, o.scales, o.afv, o.replies, code, 0);
}

/// A transform within the 8x8 block at (`bx`, `by`).
proof fn lemma_cell_cost(o: Offers, s: SubStrategy, bx: int, by: int)
    requires
        o.complete(),
        0 <= bx < o.xs8,
        0 <= by < o.ys8,
        o.costs().sub_blocks().considers(s),
    ensures
        o.cost((bx, by, crate::assignment::sub_strategy_code(s))) == o.costs().sub_blocks().cost(
            o.costs().dct8,
            s,
            by * o.xs8 + bx,
        ),
{
    let c = o.costs();
    let code = crate::assignment::sub_strategy_code(s);
    assert(0 <= by * o.xs8 && by * o.xs8 + bx < o.xs8 * o.ys8) by (nonlinear_arith)
        requires
            0 <= bx < o.xs8,
            0 <= by < o.ys8,
    ;
    lemma_cost(o, (bx, by, code), 1, 1, bx, by);
}

/// A transform within 8x8 blocks is considered where it is offered.
proof fn lemma_cell_offers(o: Offers, s: SubStrategy)
    requires
        o.complete(),
        o.xs8 * o.ys8 > 0,
    ensures
        o.costs().sub_blocks().considers(s) <==> o.offers(
            crate::assignment::sub_strategy_code(s),
        ),
{
    lemma_offers(o, crate::assignment::sub_strategy_code(s));
}

/// One transform over a 16x16 region, or two beside or below each other.
proof fn lemma_large16(o: Offers, p: Partition16x16, rx: int, ry: int)
    requires
        o.complete(),
        0 <= rx < o.xs8 / 2,
        0 <= ry < o.ys8 / 2,
        legal16(p, o.costs().extras16()),
        p is Dct16x16 || p is TwoDct16x8Horizontal || p is TwoDct8x16Vertical,
        p is Dct16x16 ==> o.gates.dct16,
    ensures
        ({
            let c = o.costs();
            partition16_cost(p, c.dct8, c.dct16x16, c.extras16(), o.xs8, rx, ry)
        }) == o.bill16(p, rx, ry),
{
    let c = o.costs();
    let xs = o.xs8;
    let ys = o.ys8;
    let s = shifted(region16(p), 2 * rx, 2 * ry);
    let costs = Seq::new(s.len(), |j: int| o.cost(s[j]));
    lemma_region(xs / 2, ys / 2, rx, ry);
    assert(2 * (xs / 2) == xs && 2 * (ys / 2) == ys && xs / 1 == xs);
    if p is Dct16x16 {
        assert(s[0] == (2 * rx, 2 * ry, RAW_STRATEGY_DCT16X16));
        assert(own_list(c, RAW_STRATEGY_DCT16X16).len() == (xs / 2) * (ys / 2));
        lemma_cost(o, s[0], 2, 2, rx, ry);
        assert(costs[0] == o.cost(s[0]));
    } else if p is TwoDct16x8Horizontal {
        assert(s[0] == (2 * rx, 2 * ry, RAW_STRATEGY_DCT16X8));
        assert(s[1] == (2 * rx + 1, 2 * ry, RAW_STRATEGY_DCT16X8));
        assert(own_list(c, RAW_STRATEGY_DCT16X8).len() == xs * (ys / 2));
        assert(ry * (xs / 1) == ry * xs);
        lemma_cost(o, s[0], 1, 2, 2 * rx, ry);
        lemma_cost(o, s[1], 1, 2, 2 * rx + 1, ry);
        lemma_in_turn2(costs);
    } else {
        assert(s[0] == (2 * rx, 2 * ry, RAW_STRATEGY_DCT8X16));
        assert(s[1] == (2 * rx, 2 * ry + 1, RAW_STRATEGY_DCT8X16));
        assert(own_list(c, RAW_STRATEGY_DCT8X16).len() == (xs / 2) * ys);
        lemma_cost(o, s[0], 2, 1, rx, 2 * ry);
        lemma_cost(o, s[1], 2, 1, rx, 2 * ry + 1);
        lemma_in_turn2(costs);
    }
    reveal(partition16_cost);
}

/// The cost that a partition of a 16x16 region is judged by is what its
/// transforms cost.
proof fn lemma_bill16(o: Offers, p: Partition16x16, rx: int, ry: int)
    requires
        o.complete(),
        0 <= rx < o.xs8 / 2,
        0 <= ry < o.ys8 / 2,
        legal16(p, o.costs().extras16()),
        p is Dct16x16 ==> o.gates.dct16,
    ensures
        ({
            let c = o.costs();
            partition16_cost(p, c.dct8, c.dct16x16, c.extras16(), o.xs8, rx, ry)
        }) == o.bill16(p, rx, ry),
{
    let s = shifted(region16(p), 2 * rx, 2 * ry);
    let costs = Seq::new(s.len(), |j: int| o.cost(s[j]));
    match p {
        Partition16x16::FourDct8x8 => {
            lemma_cell_cost(o, SubStrategy::Dct8, 2 * rx, 2 * ry);
            lemma_cell_cost(o, SubStrategy::Dct8, 2 * rx + 1, 2 * ry);
            lemma_cell_cost(o, SubStrategy::Dct8, 2 * rx, 2 * ry + 1);
            lemma_cell_cost(o, SubStrategy::Dct8, 2 * rx + 1, 2 * ry + 1);
            lemma_in_turn4(costs);
            reveal(partition16_cost);
        },
        Partition16x16::FourSubBlocks(subs) => {
            lemma_cell_cost(o, subs@[0], 2 * rx, 2 * ry);
            lemma_cell_cost(o, subs@[1], 2 * rx + 1, 2 * ry);
            lemma_cell_cost(o, subs@[2], 2 * rx, 2 * ry + 1);
            lemma_cell_cost(o, subs@[3], 2 * rx + 1, 2 * ry + 1);
            lemma_in_turn4(costs);
            reveal(partition16_cost);
        },
        _ => {
            lemma_large16(o, p, rx, ry);
        },
    }
}

/// A partition of a 16x16 region is legal where it is offered.
#[verifier::rlimit(40)]
proof fn lemma_legal16(o: Offers, p: Partition16x16)
    requires
        o.complete(),
        o.gates.dct16,
        o.xs8 * o.ys8 > 0,
        (o.xs8 / 2) * (o.ys8 / 2) > 0,
    ensures
        legal16(p, o.costs().extras16()) <==> o.offers16(p),
{
    let s = region16(p);
    lemma_offers(o, RAW_STRATEGY_DCT16X16);
    lemma_offers(o, RAW_STRATEGY_DCT16X8);
    lemma_offers(o, RAW_STRATEGY_DCT8X16);
    lemma_offers(o, RAW_STRATEGY_DCT);
    if let Partition16x16::FourSubBlocks(subs) = p {
        lemma_cell_offers(o, subs@[0]);
        lemma_cell_offers(o, subs@[1]);
        lemma_cell_offers(o, subs@[2]);
        lemma_cell_offers(o, subs@[3]);
        assert(s.len() == 4);
        if o.offers16(p) {
            assert(o.offers(s[0].2) && o.offers(s[1].2) && o.offers(s[2].2) && o.offers(s[3].2));
        }
    } else if o.offers16(p) {
        assert(o.offers(s[0].2));
    }
}

/// The same of a 32x32 region.
#[verifier::rlimit(60)]
proof fn lemma_bill32(o: Offers, p: Partition32x32, rx: int, ry: int)
    requires
        o.complete(),
        o.gates.rect32,
        0 <= rx < o.xs8 / 4,
        0 <= ry < o.ys8 / 4,
        legal32(p, o.costs().extras32(), o.costs().extras16()),
        p is Dct32x32 ==> o.gates.dct32,
    ensures
        ({
            let c = o.costs();
            partition32_cost(
                p,
                c.dct8,
                c.dct16x16,
                c.dct32x32,
                c.extras32(),
                c.extras16(),
                o.xs8,
                rx,
                ry,
            )
        }) == o.bill32(p, rx, ry),
{
    let c = o.costs();
    let s = shifted(region32(p), 4 * rx, 4 * ry);
    let costs = Seq::new(s.len(), |j: int| o.cost(s[j]));
    lemma_region(o.xs8 / 4, o.ys8 / 4, rx, ry);
    assert(2 * (o.xs8 / 4) == o.xs8 / 2 && 2 * (o.ys8 / 4) == o.ys8 / 2);
    match p {
        Partition32x32::Dct32x32 => {
            assert(s[0] == (4 * rx, 4 * ry, RAW_STRATEGY_DCT32X32));
            assert(own_list(c, RAW_STRATEGY_DCT32X32).len() == (o.xs8 / 4) * (o.ys8 / 4));
            lemma_cost(o, s[0], 4, 4, rx, ry);
            assert(costs[0] == o.cost(s[0]));
        },
        Partition32x32::TwoDct32x16Horizontal => {
            assert(s[0] == (4 * rx, 4 * ry, RAW_STRATEGY_DCT32X16));
            assert(s[1] == (4 * rx + 2, 4 * ry, RAW_STRATEGY_DCT32X16));
            assert(own_list(c, RAW_STRATEGY_DCT32X16).len() == (o.xs8 / 2) * (o.ys8 / 4));
            lemma_cost(o, s[0], 2, 4, 2 * rx, ry);
            lemma_cost(o, s[1], 2, 4, 2 * rx + 1, ry);
            lemma_in_turn2(costs);
        },
        Partition32x32::TwoDct16x32Vertical => {
            assert(s[0] == (4 * rx, 4 * ry, RAW_STRATEGY_DCT16X32));
            assert(s[1] == (4 * rx, 4 * ry + 2, RAW_STRATEGY_DCT16X32));
            assert(own_list(c, RAW_STRATEGY_DCT16X32).len() == (o.xs8 / 4) * (o.ys8 / 2));
            lemma_cost(o, s[0], 4, 2, rx, 2 * ry);
            lemma_cost(o, s[1], 4, 2, rx, 2 * ry + 1);
            lemma_in_turn2(costs);
        },
        Partition32x32::Sub16x16(subs) => {
            let bills = Seq::new(
                4,
                |k: int| o.bill16(subs@[k], 2 * rx + k % 2, 2 * ry + k / 2),
            );
            lemma_bill16(o, subs@[0], 2 * rx, 2 * ry);
            lemma_bill16(o, subs@[1], 2 * rx + 1, 2 * ry);
            lemma_bill16(o, subs@[2], 2 * rx, 2 * ry + 1);
            lemma_bill16(o, subs@[3], 2 * rx + 1, 2 * ry + 1);
            lemma_in_turn4(bills);
        },
    }
}

/// A partition of a 32x32 region is legal where it is offered.
proof fn lemma_legal32(o: Offers, p: Partition32x32)
    requires
        o.complete(),
        o.gates.rect32,
        o.xs8 / 4 > 0,
        o.ys8 / 4 > 0,
        p is Dct32x32 ==> o.gates.dct32,
    ensures
        legal32(p, o.costs().extras32(), o.costs().extras16()) <==> o.offers32(p),
{
    lemma_areas(o.xs8, o.ys8);
    match p {
        Partition32x32::Dct32x32 => {
            lemma_offers(o, RAW_STRATEGY_DCT32X32);
        },
        Partition32x32::TwoDct32x16Horizontal => {
            lemma_offers(o, RAW_STRATEGY_DCT32X16);
        },
        Partition32x32::TwoDct16x32Vertical => {
            lemma_offers(o, RAW_STRATEGY_DCT16X32);
        },
        Partition32x32::Sub16x16(subs) => {
            lemma_legal16(o, subs@[0]);
            lemma_legal16(o, subs@[1]);
            lemma_legal16(o, subs@[2]);
            lemma_legal16(o, subs@[3]);
        },
    }
}

/// The numbers of regions of an image that has any.
proof fn lemma_areas(xs8: int, ys8: int)
    requires
        xs8 / 2 > 0,
        ys8 / 2 > 0,
    ensures
        xs8 * ys8 > 0,
        (xs8 / 2) * (ys8 / 2) > 0,
        xs8 / 4 > 0 && ys8 / 4 > 0 ==> {
            &&& (xs8 / 4) * (ys8 / 4) > 0
            &&& (xs8 / 2) * (ys8 / 4) > 0
            &&& (xs8 / 4) * (ys8 / 2) > 0
        },
        xs8 / 8 > 0 && ys8 / 8 > 0 ==> {
            &&& (xs8 / 8) * (ys8 / 8) > 0
            &&& (xs8 / 4) * (ys8 / 8) > 0
            &&& (xs8 / 8) * (ys8 / 4) > 0
        },
{
    lemma_area(xs8, ys8);
    lemma_area(xs8 / 2, ys8 / 2);
    if xs8 / 4 > 0 && ys8 / 4 > 0 {
        lemma_area(xs8 / 4, ys8 / 4);
        lemma_area(xs8 / 2, ys8 / 4);
        lemma_area(xs8 / 4, ys8 / 2);
    }
    if xs8 / 8 > 0 && ys8 / 8 > 0 {
        lemma_area(xs8 / 8, ys8 / 8);
        lemma_area(xs8 / 4, ys8 / 8);
        lemma_area(xs8 / 8, ys8 / 4);
    }
}

proof fn lemma_area(a: int, b: int)
    requires
        a > 0,
        b > 0,
    ensures
        a * b > 0,
{
    assert(a * b > 0) by (nonlinear_arith)
        requires
            a > 0,
            b > 0,
    ;
}

/// The same of a 64x64 region.
#[verifier::rlimit(60)]
proof fn lemma_bill64(o: Offers, p: Partition64x64, rx: int, ry: int)
    requires
        o.complete(),
        o.gates.dct64,
        0 <= rx < o.xs8 / 8,
        0 <= ry < o.ys8 / 8,
        legal64(p, o.costs().extras32(), o.costs().extras64(), o.costs().extras16()),
    ensures
        ({
            let c = o.costs();
            partition64_cost(
                p,
                c.dct8,
                c.dct16x16,
                c.dct32x32,
                c.dct64x64,
                c.extras32(),
                c.extras64(),
                c.extras16(),
                o.xs8,
                rx,
                ry,
            )
        }) == o.bill64(p, rx, ry),
{
    let c = o.costs();
    let s = shifted(region64(p), 8 * rx, 8 * ry);
    let costs = Seq::new(s.len(), |j: int| o.cost(s[j]));
    lemma_region(o.xs8 / 8, o.ys8 / 8, rx, ry);
    assert(2 * (o.xs8 / 8) == o.xs8 / 4 && 2 * (o.ys8 / 8) == o.ys8 / 4);
    match p {
        Partition64x64::Dct64x64 => {
            assert(s[0] == (8 * rx, 8 * ry, RAW_STRATEGY_DCT64X64));
            assert(own_list(c, RAW_STRATEGY_DCT64X64).len() == (o.xs8 / 8) * (o.ys8 / 8));
            lemma_cost(o, s[0], 8, 8, rx, ry);
            assert(costs[0] == o.cost(s[0]));
        },
        Partition64x64::TwoDct64x32Horizontal => {
            assert(s[0] == (8 * rx, 8 * ry, RAW_STRATEGY_DCT64X32));
            assert(s[1] == (8 * rx + 4, 8 * ry, RAW_STRATEGY_DCT64X32));
            assert(own_list(c, RAW_STRATEGY_DCT64X32).len() == (o.xs8 / 4) * (o.ys8 / 8));
            lemma_cost(o, s[0], 4, 8, 2 * rx, ry);
            lemma_cost(o, s[1], 4, 8, 2 * rx + 1, ry);
            lemma_in_turn2(costs);
        },
        Partition64x64::TwoDct32x64Vertical => {
            assert(s[0] == (8 * rx, 8 * ry, RAW_STRATEGY_DCT32X64));
            assert(s[1] == (8 * rx, 8 * ry + 4, RAW_STRATEGY_DCT32X64));
            assert(own_list(c, RAW_STRATEGY_DCT32X64).len() == (o.xs8 / 8) * (o.ys8 / 4));
            lemma_cost(o, s[0], 8, 4, rx, 2 * ry);
            lemma_cost(o, s[1], 8, 4, rx, 2 * ry + 1);
            lemma_in_turn2(costs);
        },
        Partition64x64::Sub32x32(subs) => {
            let bills = Seq::new(
                4,
                |k: int| o.bill32(subs@[k], 2 * rx + k % 2, 2 * ry + k / 2),
            );
            lemma_bill32(o, subs@[0], 2 * rx, 2 * ry);
            lemma_bill32(o, subs@[1], 2 * rx + 1, 2 * ry);
            lemma_bill32(o, subs@[2], 2 * rx, 2 * ry + 1);
            lemma_bill32(o, subs@[3], 2 * rx + 1, 2 * ry + 1);
            lemma_in_turn4(bills);
        },
    }
}

/// A partition of a 64x64 region is legal where it is offered.
proof fn lemma_legal64(o: Offers, p: Partition64x64)
    requires
        o.complete(),
        o.gates.dct64,
        o.xs8 / 8 > 0,
        o.ys8 / 8 > 0,
    ensures
        legal64(p, o.costs().extras32(), o.costs().extras64(), o.costs().extras16())
            <==> o.offers64(p),
{
    lemma_areas(o.xs8, o.ys8);
    match p {
        Partition64x64::Dct64x64 => {
            lemma_offers(o, RAW_STRATEGY_DCT64X64);
        },
        Partition64x64::TwoDct64x32Horizontal => {
            lemma_offers(o, RAW_STRATEGY_DCT64X32);
        },
        Partition64x64::TwoDct32x64Vertical => {
            lemma_offers(o, RAW_STRATEGY_DCT32X64);
        },
        Partition64x64::Sub32x32(subs) => {
            lemma_legal32(o, subs@[0]);
            lemma_legal32(o, subs@[1]);
            lemma_legal32(o, subs@[2]);
            lemma_legal32(o, subs@[3]);
        },
    }
}

proof fn lemma_holds_all(all: Seq<Placement>, some: Seq<Placement>, few: Seq<Placement>)
    requires
        holds(all, some),
        holds(some, few),
    ensures
        holds(all, few),
{
    assert forall|j: int| 0 <= j < few.len() implies all.contains(#[trigger] few[j]) by {
        assert(some.contains(few[j]));
        let i = choose|i: int| 0 <= i < some.len() && some[i] == few[j];
        assert(all.contains(some[i]));
    }
}

proof fn lemma_holds_shifted(all: Seq<Placement>, few: Seq<Placement>, dx: int, dy: int)
    requires
        holds(all, few),
    ensures
        holds(shifted(all, dx, dy), shifted(few, dx, dy)),
{
    let a = shifted(all, dx, dy);
    let f = shifted(few, dx, dy);
    assert forall|j: int| 0 <= j < f.len() implies a.contains(#[trigger] f[j]) by {
        assert(all.contains(few[j]));
        let i = choose|i: int| 0 <= i < all.len() && all[i] == few[j];
        assert(a[i] == f[j]);
    }
}

/// Regions put together are there, each in its place.
proof fn lemma_layout_holds(regions: Seq<Seq<Placement>>, xs: int, size: int, k: int)
    requires
        0 <= k < regions.len(),
    ensures
        holds(
            layout(regions, xs, size),
            shifted(regions[k], (k % xs) * size, (k / xs) * size),
        ),
    decreases regions.len(),
{
    let last = regions.len() - 1;
    let before = layout(regions.drop_last(), xs, size);
    let end = shifted(regions.last(), (last % xs) * size, (last / xs) * size);
    let all = layout(regions, xs, size);
    assert(all == before + end);
    if k == last {
        assert forall|j: int| 0 <= j < end.len() implies all.contains(#[trigger] end[j]) by {
            assert(all[before.len() + j] == end[j]);
        }
    } else {
        lemma_layout_holds(regions.drop_last(), xs, size, k);
        assert forall|j: int| 0 <= j < before.len() implies all.contains(
            #[trigger] before[j],
        ) by {
            assert(all[j] == before[j]);
        }
        assert(regions.drop_last()[k] == regions[k]);
        lemma_holds_all(
            all,
            before,
            shifted(regions[k], (k % xs) * size, (k / xs) * size),
        );
    }
}

proof fn lemma_holds32(all: Seq<Placement>, p: Partition32x32, rx: int, ry: int)
    requires
        holds(all, shifted(region32(p), 4 * rx, 4 * ry)),
    ensures
        holds32(all, p, rx, ry),
{
    if let Partition32x32::Sub16x16(subs) = p {
        let regions = Seq::new(4, |i: int| region16(subs@[i]));
        assert forall|k: int| 0 <= k < 4 implies holds(
            all,
            shifted(region16(#[trigger] subs@[k]), 4 * rx + 2 * (k % 2), 4 * ry + 2 * (k / 2)),
        ) by {
            let part = shifted(regions[k], (k % 2) * 2, (k / 2) * 2);
            lemma_layout_holds(regions, 2, 2, k);
            lemma_holds_shifted(region32(p), part, 4 * rx, 4 * ry);
            lemma_holds_all(
                all,
                shifted(region32(p), 4 * rx, 4 * ry),
                shifted(part, 4 * rx, 4 * ry),
            );
            assert(shifted(part, 4 * rx, 4 * ry) =~= shifted(
                region16(subs@[k]),
                4 * rx + 2 * (k % 2),
                4 * ry + 2 * (k / 2),
            ));
        }
    }
}

proof fn lemma_holds64(all: Seq<Placement>, p: Partition64x64, rx: int, ry: int)
    requires
        holds(all, shifted(region64(p), 8 * rx, 8 * ry)),
    ensures
        holds64(all, p, rx, ry),
{
    if let Partition64x64::Sub32x32(subs) = p {
        let regions = Seq::new(4, |i: int| region32(subs@[i]));
        assert forall|k: int| 0 <= k < 4 implies holds32(
            all,
            #[trigger] subs@[k],
            2 * rx + k % 2,
            2 * ry + k / 2,
        ) by {
            let part = shifted(regions[k], (k % 2) * 4, (k / 2) * 4);
            lemma_layout_holds(regions, 2, 4, k);
            lemma_holds_shifted(region64(p), part, 8 * rx, 8 * ry);
            lemma_holds_all(
                all,
                shifted(region64(p), 8 * rx, 8 * ry),
                shifted(part, 8 * rx, 8 * ry),
            );
            assert(shifted(part, 8 * rx, 8 * ry) =~= shifted(
                region32(subs@[k]),
                4 * (2 * rx + k % 2),
                4 * (2 * ry + k / 2),
            ));
            lemma_holds32(all, subs@[k], 2 * rx + k % 2, 2 * ry + k / 2);
        }
    }
}

proof fn lemma_unasked(jobs: Seq<CostJob>, replies: Seq<Seq<Float32>>, code: u8)
    requires
        replies.len() == jobs.len(),
        forall|j: int| 0 <= j < jobs.len() ==> !asks_for(#[trigger] jobs[j], code),
    ensures
        reply_for(jobs, replies, code).len() == 0,
    decreases jobs.len(),
{
    if jobs.len() > 0 {
        let before = jobs.drop_last();
        assert forall|j: int| 0 <= j < before.len() implies !asks_for(
            #[trigger] before[j],
            code,
        ) by {
            assert(before[j] == jobs[j]);
        }
        assert(!asks_for(jobs[jobs.len() - 1], code));
        lemma_unasked(before, replies.drop_last(), code);
    }
}

/// Nothing comes back for transforms that are not considered.
#[verifier::rlimit(40)]
proof fn lemma_not_considered(o: Offers)
    requires
        o.complete(),
    ensures
        !o.gates.dct16 ==> !o.offers(RAW_STRATEGY_DCT16X16) && !o.offers(RAW_STRATEGY_DCT16X8)
            && !o.offers(RAW_STRATEGY_DCT8X16),
        !o.gates.dct32 ==> !o.offers(RAW_STRATEGY_DCT32X32),
{
    let jobs = o.jobs();
    lemma_search_jobs(o.gates, o.scales, o.afv);
    assert forall|j: int| 0 <= j < jobs.len() implies {
        &&& !o.gates.dct16 ==> !(jobs[j] is Dct16x16) && !(jobs[j] is Dct16x8) && !(
        jobs[j] is Dct8x16)
        &&& !o.gates.dct32 ==> !((#[trigger] jobs[j]) is Dct32x32)
    } by {
        reveal(jobs_of);
        reveal(jobs_if);
        reveal(sub_block_jobs);
    }
    if !o.gates.dct16 {
        lemma_unasked(jobs, o.replies, RAW_STRATEGY_DCT16X16);
        lemma_unasked(jobs, o.replies, RAW_STRATEGY_DCT16X8);
        lemma_unasked(jobs, o.replies, RAW_STRATEGY_DCT8X16);
    }
    if !o.gates.dct32 {
        lemma_unasked(jobs, o.replies, RAW_STRATEGY_DCT32X32);
    }
}

/// The number of the region at (`rx`, `ry`), `xs` to a row.
proof fn lemma_place(xs: int, ys: int, rx: int, ry: int)
    requires
        0 <= rx < xs,
        0 <= ry < ys,
    ensures
        0 <= ry * xs + rx < xs * ys,
        (ry * xs + rx) % xs == rx,
        (ry * xs + rx) / xs == ry,
{
    assert(0 <= ry * xs && ry * xs + xs <= xs * ys) by (nonlinear_arith)
        requires
            0 <= ry < ys,
            0 < xs,
    ;
    vstd::arithmetic::div_mod::lemma_fundamental_div_mod_converse(ry * xs + rx, xs, ry, rx);
}

proof fn lemma_least64(o: Offers, rx: int, ry: int) -> (p: Partition64x64)
    requires
        o.complete(),
        o.gates.dct64,
        0 <= rx < o.xs8 / 8,
        0 <= ry < o.ys8 / 8,
        forall|q: Partition64x64| #[trigger] o.offers64(q) ==> !o.bill64(q, rx, ry).nan(),
    ensures
        o.least64(p, rx, ry),
        holds(o.chosen(), shifted(region64(p), 8 * rx, 8 * ry)),
{
    let c = o.costs();
    let k = ry * (o.xs8 / 8) + rx;
    lemma_place(o.xs8 / 8, o.ys8 / 8, rx, ry);
    let all = c.partitions64(o.xs8, o.ys8);
    let p = all[k];
    assert forall|q: Partition64x64|
        legal64(q, c.extras32(), c.extras64(), c.extras16()) implies !(#[trigger] partition64_cost(
        q,
        c.dct8,
        c.dct16x16,
        c.dct32x32,
        c.dct64x64,
        c.extras32(),
        c.extras64(),
        c.extras16(),
        o.xs8,
        rx,
        ry,
    )).nan() by {
        lemma_legal64(o, q);
        lemma_bill64(o, q, rx, ry);
    }
    law_choice64_is_legal(
        c.dct8,
        c.dct16x16,
        c.dct32x32,
        c.dct64x64,
        c.extras32(),
        c.extras64(),
        c.extras16(),
        o.xs8,
        rx,
        ry,
    );
    lemma_legal64(o, p);
    lemma_bill64(o, p, rx, ry);
    assert forall|q: Partition64x64| #[trigger] o.offers64(q) implies !o.bill64(q, rx, ry).less(
        o.bill64(p, rx, ry),
    ) by {
        lemma_legal64(o, q);
        lemma_bill64(o, q, rx, ry);
        law_choice64_is_least(
            c.dct8,
            c.dct16x16,
            c.dct32x32,
            c.dct64x64,
            c.extras32(),
            c.extras64(),
            c.extras16(),
            o.xs8,
            rx,
            ry,
            q,
        );
    }
    let regions = Seq::new(all.len(), |i: int| region64(all[i]));
    lemma_layout_holds(regions, o.xs8 / 8, 8, k);
    p
}

/// In a search that considers DCT64x64, every 64x64 region is partitioned so
/// that no other partition costs less, where no cost is a NaN: each transform
/// at the cost that came back for it and its place, times its multiplier.
pub proof fn law_cheapest_partition64_is_chosen(o: Offers, rx: int, ry: int)
    requires
        o.complete(),
        o.gates.dct64,
        0 <= rx < o.xs8 / 8,
        0 <= ry < o.ys8 / 8,
        forall|q: Partition64x64| #[trigger] o.offers64(q) ==> !o.bill64(q, rx, ry).nan(),
    ensures
        exists|p: Partition64x64| #[trigger]
            o.least64(p, rx, ry) && holds64(o.chosen(), p, rx, ry),
{
    let p = lemma_least64(o, rx, ry);
    lemma_holds64(o.chosen(), p, rx, ry);
}

/// Where one partition of a 64x64 region costs less than all others, its
/// transforms are the ones chosen there.
pub proof fn law_strictly_cheapest_partition64_is_chosen(
    o: Offers,
    rx: int,
    ry: int,
    q: Partition64x64,
)
    requires
        o.complete(),
        o.gates.dct64,
        0 <= rx < o.xs8 / 8,
        0 <= ry < o.ys8 / 8,
        forall|q: Partition64x64| #[trigger] o.offers64(q) ==> !o.bill64(q, rx, ry).nan(),
        o.offers64(q),
        forall|p: Partition64x64| #[trigger]
            o.offers64(p) && region64(p) != region64(q) ==> o.bill64(q, rx, ry).less(
                o.bill64(p, rx, ry),
            ),
    ensures
        holds(o.chosen(), shifted(region64(q), 8 * rx, 8 * ry)),
{
    let p = lemma_least64(o, rx, ry);
}

proof fn lemma_least32(o: Offers, rx: int, ry: int) -> (p: Partition32x32)
    requires
        o.complete(),
        o.gates.rect32,
        !o.gates.dct64,
        0 <= rx < o.xs8 / 4,
        0 <= ry < o.ys8 / 4,
        forall|q: Partition32x32| #[trigger] o.offers32(q) ==> !o.bill32(q, rx, ry).nan(),
    ensures
        o.least32(p, rx, ry),
        holds(o.chosen(), shifted(region32(p), 4 * rx, 4 * ry)),
{
    let c = o.costs();
    let k = ry * (o.xs8 / 4) + rx;
    lemma_place(o.xs8 / 4, o.ys8 / 4, rx, ry);
    let all = c.partitions32(o.gates, o.xs8, o.ys8);
    let p = all[k];
    lemma_not_considered(o);
    let in_question = |q: Partition32x32| q is Dct32x32 ==> o.gates.dct32;
    assert forall|q: Partition32x32| o.offers32(q) implies #[trigger] in_question(q) by {
        if q is Dct32x32 {
            assert(o.offers(region32(q)[0].2));
        }
    }
    assert forall|q: Partition32x32|
        in_question(q) && legal32(q, c.extras32(), c.extras16()) implies !(
    #[trigger] partition32_cost(
        q,
        c.dct8,
        c.dct16x16,
        c.dct32x32,
        c.extras32(),
        c.extras16(),
        o.xs8,
        rx,
        ry,
    )).nan() by {
        lemma_legal32(o, q);
        lemma_bill32(o, q, rx, ry);
    }
    if o.gates.dct32 {
        law_choice32_is_legal(
            c.dct8,
            c.dct16x16,
            c.dct32x32,
            c.extras32(),
            c.extras16(),
            o.xs8,
            rx,
            ry,
        );
    } else {
        law_choice32_of_parts_is_legal(
            c.dct8,
            c.dct16x16,
            c.extras32(),
            c.extras16(),
            o.xs8,
            rx,
            ry,
        );
        assert(partition32_cost(
            p,
            c.dct8,
            c.dct16x16,
            c.dct32x32,
            c.extras32(),
            c.extras16(),
            o.xs8,
            rx,
            ry,
        ) == choice32_of_parts(
            c.dct8,
            c.dct16x16,
            c.extras32(),
            c.extras16(),
            o.xs8,
            rx,
            ry,
        ).0);
    }
    lemma_legal32(o, p);
    lemma_bill32(o, p, rx, ry);
    assert forall|q: Partition32x32| #[trigger] o.offers32(q) implies !o.bill32(q, rx, ry).less(
        o.bill32(p, rx, ry),
    ) by {
        assert(in_question(q));
        lemma_legal32(o, q);
        lemma_bill32(o, q, rx, ry);
        if o.gates.dct32 {
            law_choice32_is_least(
                c.dct8,
                c.dct16x16,
                c.dct32x32,
                c.extras32(),
                c.extras16(),
                o.xs8,
                rx,
                ry,
                q,
            );
        } else {
            law_choice32_of_parts_is_least(
                c.dct8,
                c.dct16x16,
                c.dct32x32,
                c.extras32(),
                c.extras16(),
                o.xs8,
                rx,
                ry,
                q,
            );
        }
    }
    let regions = Seq::new(all.len(), |i: int| region32(all[i]));
    lemma_layout_holds(regions, o.xs8 / 4, 4, k);
    p
}

/// In a search of 32x32 regions, every one is partitioned so that no other
/// partition costs less, where no cost is a NaN.
pub proof fn law_cheapest_partition32_is_chosen(o: Offers, rx: int, ry: int)
    requires
        o.complete(),
        o.gates.rect32,
        !o.gates.dct64,
        0 <= rx < o.xs8 / 4,
        0 <= ry < o.ys8 / 4,
        forall|q: Partition32x32| #[trigger] o.offers32(q) ==> !o.bill32(q, rx, ry).nan(),
    ensures
        exists|p: Partition32x32| #[trigger]
            o.least32(p, rx, ry) && holds32(o.chosen(), p, rx, ry),
{
    let p = lemma_least32(o, rx, ry);
    lemma_holds32(o.chosen(), p, rx, ry);
}

/// Where one partition of a 32x32 region costs less than all others, its
/// transforms are the ones chosen there.
pub proof fn law_strictly_cheapest_partition32_is_chosen(
    o: Offers,
    rx: int,
    ry: int,
    q: Partition32x32,
)
    requires
        o.complete(),
        o.gates.rect32,
        !o.gates.dct64,
        0 <= rx < o.xs8 / 4,
        0 <= ry < o.ys8 / 4,
        forall|q: Partition32x32| #[trigger] o.offers32(q) ==> !o.bill32(q, rx, ry).nan(),
        o.offers32(q),
        forall|p: Partition32x32| #[trigger]
            o.offers32(p) && region32(p) != region32(q) ==> o.bill32(q, rx, ry).less(
                o.bill32(p, rx, ry),
            ),
    ensures
        holds(o.chosen(), shifted(region32(q), 4 * rx, 4 * ry)),
{
    let p = lemma_least32(o, rx, ry);
}

/// The least costs of the four blocks of a 16x16 region are the least together.
#[verifier::rlimit(40)]
proof fn lemma_small_least(o: Offers, rx: int, ry: int, q: Partition16x16)
    requires
        o.complete(),
        !o.gates.dct16,
        0 <= rx < o.xs8 / 2,
        0 <= ry < o.ys8 / 2,
        o.offers16(q),
        forall|p: Partition16x16| #[trigger] o.offers16(p) ==> !o.bill16(p, rx, ry).nan(),
    ensures
        o.offers16(o.costs().small_choice(o.xs8, rx, ry)),
        !o.bill16(q, rx, ry).less(
            o.bill16(o.costs().small_choice(o.xs8, rx, ry), rx, ry),
        ),
{
    let c = o.costs();
    let grids = c.sub_blocks();
    let i0 = corner(o.xs8, rx, ry, 0);
    let i1 = corner(o.xs8, rx, ry, 1);
    let i2 = corner(o.xs8, rx, ry, 2);
    let i3 = corner(o.xs8, rx, ry, 3);
    lemma_areas(o.xs8, o.ys8);
    lemma_not_considered(o);
    let best = c.small_choice(o.xs8, rx, ry);
    let cells = cells_choice(c.dct8, grids, o.xs8, rx, ry).1;
    law_cell_choice_is_considered(grids, c.dct8, i0);
    law_cell_choice_is_considered(grids, c.dct8, i1);
    law_cell_choice_is_considered(grids, c.dct8, i2);
    law_cell_choice_is_considered(grids, c.dct8, i3);
    lemma_offered_cells(o, cells);
    let spelled = Partition16x16::FourSubBlocks(cells);
    lemma_bill16(o, spelled, rx, ry);
    assert(o.offers16(best) && o.bill16(best, rx, ry) == o.bill16(spelled, rx, ry)) by {
        if best is FourDct8x8 {
            assert(region16(best) =~= region16(spelled));
        }
    }
    let other: [SubStrategy; 4] = if let Partition16x16::FourSubBlocks(subs) = q {
        subs
    } else {
        [SubStrategy::Dct8, SubStrategy::Dct8, SubStrategy::Dct8, SubStrategy::Dct8]
    };
    let those = Partition16x16::FourSubBlocks(other);
    assert(q is FourDct8x8 || q is FourSubBlocks) by {
        assert(o.offers(region16(q)[0].2));
    }
    assert(o.offers16(those) && o.bill16(q, rx, ry) == o.bill16(those, rx, ry)) by {
        if q is FourDct8x8 {
            assert(region16(q) =~= region16(those));
        }
    }
    lemma_considered_cells(o, other);
    lemma_bill16(o, those, rx, ry);
    assert(!o.bill16(those, rx, ry).nan());
    assert(!o.bill16(spelled, rx, ry).nan());
    lemma_one_cell(o, rx, ry, other@[0], 0);
    lemma_one_cell(o, rx, ry, other@[1], 1);
    lemma_one_cell(o, rx, ry, other@[2], 2);
    lemma_one_cell(o, rx, ry, other@[3], 3);
    reveal(partition16_cost);
    lemma_sum4_monotone(
        grids.cost(c.dct8, cells@[0], i0),
        grids.cost(c.dct8, cells@[1], i1),
        grids.cost(c.dct8, cells@[2], i2),
        grids.cost(c.dct8, cells@[3], i3),
        grids.cost(c.dct8, other@[0], i0),
        grids.cost(c.dct8, other@[1], i1),
        grids.cost(c.dct8, other@[2], i2),
        grids.cost(c.dct8, other@[3], i3),
    );
}

/// Transforms within 8x8 blocks that are considered are offered.
proof fn lemma_offered_cells(o: Offers, subs: [SubStrategy; 4])
    requires
        o.complete(),
        o.xs8 * o.ys8 > 0,
        forall|k: int| 0 <= k < 4 ==> o.costs().sub_blocks().considers(#[trigger] subs@[k]),
    ensures
        o.offers16(Partition16x16::FourSubBlocks(subs)),
        legal16(Partition16x16::FourSubBlocks(subs), o.costs().extras16()),
{
    lemma_cell_offers(o, subs@[0]);
    lemma_cell_offers(o, subs@[1]);
    lemma_cell_offers(o, subs@[2]);
    lemma_cell_offers(o, subs@[3]);
}

proof fn lemma_considered_cells(o: Offers, subs: [SubStrategy; 4])
    requires
        o.complete(),
        o.xs8 * o.ys8 > 0,
        o.offers16(Partition16x16::FourSubBlocks(subs)),
    ensures
        legal16(Partition16x16::FourSubBlocks(subs), o.costs().extras16()),
{
    let s = region16(Partition16x16::FourSubBlocks(subs));
    assert(o.offers(s[0].2) && o.offers(s[1].2) && o.offers(s[2].2) && o.offers(s[3].2));
    lemma_cell_offers(o, subs@[0]);
    lemma_cell_offers(o, subs@[1]);
    lemma_cell_offers(o, subs@[2]);
    lemma_cell_offers(o, subs@[3]);
}

/// The transform of one block of a 16x16 region costs no more than another.
#[verifier::rlimit(40)]
proof fn lemma_one_cell(o: Offers, rx: int, ry: int, s: SubStrategy, k: int)
    requires
        o.complete(),
        0 <= rx < o.xs8 / 2,
        0 <= ry < o.ys8 / 2,
        0 <= k < 4,
        o.costs().sub_blocks().considers(s),
        forall|p: Partition16x16| #[trigger] o.offers16(p) ==> !o.bill16(p, rx, ry).nan(),
    ensures
        ({
            let c = o.costs();
            let grids = c.sub_blocks();
            let i = corner(o.xs8, rx, ry, k);
            grids.cost(c.dct8, grids.cell_choice(c.dct8, i).1, i).value() <= grids.cost(
                c.dct8,
                s,
                i,
            ).value()
        }),
{
    let c = o.costs();
    let grids = c.sub_blocks();
    let i = corner(o.xs8, rx, ry, k);
    lemma_areas(o.xs8, o.ys8);
    assert forall|t: SubStrategy| grids.considers(t) implies !(#[trigger] grids.cost(
        c.dct8,
        t,
        i,
    )).nan() by {
        let four = [t, t, t, t];
        let p = Partition16x16::FourSubBlocks(four);
        lemma_offered_cells(o, four);
        lemma_bill16(o, p, rx, ry);
        reveal(partition16_cost);
        assert(!o.bill16(p, rx, ry).nan());
    }
    law_cell_choice_is_least(grids, c.dct8, i, s);
}

proof fn lemma_least16(o: Offers, rx: int, ry: int) -> (p: Partition16x16)
    requires
        o.complete(),
        !o.gates.rect32,
        0 <= rx < o.xs8 / 2,
        0 <= ry < o.ys8 / 2,
        forall|q: Partition16x16| #[trigger] o.offers16(q) ==> !o.bill16(q, rx, ry).nan(),
    ensures
        o.least16(p, rx, ry),
        holds(o.chosen(), shifted(region16(p), 2 * rx, 2 * ry)),
{
    let c = o.costs();
    let k = ry * (o.xs8 / 2) + rx;
    lemma_place(o.xs8 / 2, o.ys8 / 2, rx, ry);
    lemma_areas(o.xs8, o.ys8);
    let all = c.partitions16(o.gates, o.xs8, o.ys8);
    let p = all[k];
    if o.gates.dct16 {
        assert forall|q: Partition16x16| legal16(q, c.extras16()) implies !(
        #[trigger] partition16_cost(
            q,
            c.dct8,
            c.dct16x16,
            c.extras16(),
            o.xs8,
            rx,
            ry,
        )).nan() by {
            lemma_legal16(o, q);
            lemma_bill16(o, q, rx, ry);
        }
        law_choice16_is_legal(c.dct8, c.dct16x16, c.extras16(), o.xs8, rx, ry);
        lemma_legal16(o, p);
        lemma_bill16(o, p, rx, ry);
        assert forall|q: Partition16x16| #[trigger]
            o.offers16(q) implies !o.bill16(q, rx, ry).less(o.bill16(p, rx, ry)) by {
            lemma_legal16(o, q);
            lemma_bill16(o, q, rx, ry);
            law_choice16_is_least(c.dct8, c.dct16x16, c.extras16(), o.xs8, rx, ry, q);
        }
    } else {
        lemma_offers(o, RAW_STRATEGY_DCT);
        assert(o.offers16(Partition16x16::FourDct8x8));
        lemma_small_least(o, rx, ry, Partition16x16::FourDct8x8);
        assert forall|q: Partition16x16| #[trigger]
            o.offers16(q) implies !o.bill16(q, rx, ry).less(o.bill16(p, rx, ry)) by {
            lemma_small_least(o, rx, ry, q);
        }
    }
    let regions = Seq::new(all.len(), |i: int| region16(all[i]));
    lemma_layout_holds(regions, o.xs8 / 2, 2, k);
    p
}

/// In a search of 16x16 regions, every one is partitioned so that no other
/// partition costs less, where no cost is a NaN.
pub proof fn law_cheapest_partition16_is_chosen(o: Offers, rx: int, ry: int)
    requires
        o.complete(),
        !o.gates.rect32,
        0 <= rx < o.xs8 / 2,
        0 <= ry < o.ys8 / 2,
        forall|q: Partition16x16| #[trigger] o.offers16(q) ==> !o.bill16(q, rx, ry).nan(),
    ensures
        exists|p: Partition16x16| #[trigger]
            o.least16(p, rx, ry) && holds(
                o.chosen(),
                shifted(region16(p), 2 * rx, 2 * ry),
            ),
{
    let p = lemma_least16(o, rx, ry);
}

/// Where one partition of a 16x16 region costs less than all others, its
/// transforms are the ones chosen there.
pub proof fn law_strictly_cheapest_partition16_is_chosen(
    o: Offers,
    rx: int,
    ry: int,
    q: Partition16x16,
)
    requires
        o.complete(),
        !o.gates.rect32,
        0 <= rx < o.xs8 / 2,
        0 <= ry < o.ys8 / 2,
        forall|p: Partition16x16| #[trigger] o.offers16(p) ==> !o.bill16(p, rx, ry).nan(),
        o.offers16(q),
        forall|p: Partition16x16| #[trigger]
            o.offers16(p) && region16(p) != region16(q) ==> o.bill16(q, rx, ry).less(
                o.bill16(p, rx, ry),
            ),
    ensures
        holds(o.chosen(), shifted(region16(q), 2 * rx, 2 * ry)),
{
    let p = lemma_least16(o, rx, ry);
}

/// A search that ends with a plan has all that it asked for: what holds of
/// complete offers holds of its choice, which is [`Offers::chosen`].
pub proof fn law_searches_that_end_are_complete(
    le: LossyEncoder,
    scales: SearchScales,
    afv: bool,
    replies: Seq<Seq<Float32>>,
)
    requires
        le.wf(),
        ({
            let gates = gates_at(
                le.effort as int,
                le.padded_width as int,
                le.padded_height as int,
            );
            let jobs = jobs_of(gates, scales, afv);
            &&& replies.len() == jobs.len()
            &&& costs_suit(le, collected(jobs, replies), gates, scales)
        }),
    ensures
        (Offers {
            gates: gates_at(le.effort as int, le.padded_width as int, le.padded_height as int),
            scales,
            afv,
            replies,
            xs8: le.padded_width as int / 8,
            ys8: le.padded_height as int / 8,
        }).complete(),
{
    law_gates_are_sound(le.effort as int, le.padded_width as int, le.padded_height as int);
}

/// Whether some job asks for the costs of a transform.
pub open spec fn asked(jobs: Seq<CostJob>, code: u8) -> bool {
    exists|j: int| 0 <= j < jobs.len() && asks_for(#[trigger] jobs[j], code)
}

proof fn lemma_asked_add(a: Seq<CostJob>, b: Seq<CostJob>, code: u8)
    ensures
        asked(a + b, code) <==> asked(a, code) || asked(b, code),
{
    let all = a + b;
    if asked(a, code) {
        let j = choose|j: int| 0 <= j < a.len() && asks_for(#[trigger] a[j], code);
        assert(asks_for(all[j], code));
    }
    if asked(b, code) {
        let j = choose|j: int| 0 <= j < b.len() && asks_for(#[trigger] b[j], code);
        assert(asks_for(all[a.len() + j], code));
    }
    if asked(all, code) {
        let j = choose|j: int| 0 <= j < all.len() && asks_for(#[trigger] all[j], code);
        if j < a.len() {
            assert(asks_for(a[j], code));
        } else {
            assert(asks_for(b[j - a.len()], code));
        }
    }
}

/// The jobs of transforms that go together.
proof fn lemma_asked_if(on: bool, jobs: Seq<CostJob>, code: u8)
    requires
        1 <= jobs.len() <= 3,
    ensures
        asked(jobs_if(on, jobs), code) <==> on && (asks_for(jobs[0], code) || (jobs.len() > 1
            && asks_for(jobs[1], code)) || (jobs.len() > 2 && asks_for(jobs[2], code))),
{
    reveal(jobs_if);
    if on {
        assert(asks_for(jobs[0], code) ==> asked(jobs, code));
        assert(jobs.len() > 1 && asks_for(jobs[1], code) ==> asked(jobs, code));
        assert(jobs.len() > 2 && asks_for(jobs[2], code) ==> asked(jobs, code));
    }
}

/// A search asks for the costs of every transform that it considers, and of no
/// other.
pub proof fn law_considered_transforms_are_asked_for(
    gates: SearchGates,
    scales: SearchScales,
    afv: bool,
    code: u8,
)
    ensures
        asked(jobs_of(gates, scales, afv), code) <==> allows(gates, afv, code),
{
    let specs = subblock_specs_of(gates, scales);
    let a0 = seq![CostJob::Dct8];
    let b1 = seq![CostJob::Dct16x16];
    let a1 = jobs_if(gates.dct16, b1);
    let a2 = sub_block_jobs(specs);
    let b3 = seq![CostJob::Afv];
    let a3 = jobs_if(afv, b3);
    let b4 = seq![CostJob::Dct16x8, CostJob::Dct8x16];
    let a4 = jobs_if(gates.dct16, b4);
    let b5 = seq![
        CostJob::Dct32x32(crate::quality::float(crate::search::ENTROPY_MUL_DCT32X32)),
    ];
    let a5 = jobs_if(gates.dct32, b5);
    let b6 = seq![CostJob::Dct32x16, CostJob::Dct16x32];
    let a6 = jobs_if(gates.rect32, b6);
    let b7 = seq![CostJob::Dct64x64, CostJob::Dct64x32, CostJob::Dct32x64];
    let a7 = jobs_if(gates.dct64, b7);
    assert(jobs_of(gates, scales, afv) == a0 + a1 + a2 + a3 + a4 + a5 + a6 + a7) by {
        reveal(jobs_of);
    }
    lemma_asked_add(a0, a1, code);
    lemma_asked_add(a0 + a1, a2, code);
    lemma_asked_add(a0 + a1 + a2, a3, code);
    lemma_asked_add(a0 + a1 + a2 + a3, a4, code);
    lemma_asked_add(a0 + a1 + a2 + a3 + a4, a5, code);
    lemma_asked_add(a0 + a1 + a2 + a3 + a4 + a5, a6, code);
    lemma_asked_add(a0 + a1 + a2 + a3 + a4 + a5 + a6, a7, code);
    lemma_asked_if(gates.dct16, b1, code);
    lemma_asked_if(afv, b3, code);
    lemma_asked_if(gates.dct16, b4, code);
    lemma_asked_if(gates.dct32, b5, code);
    lemma_asked_if(gates.rect32, b6, code);
    lemma_asked_if(gates.dct64, b7, code);
    assert(asked(a0, code) <==> code == RAW_STRATEGY_DCT) by {
        assert(asks_for(a0[0], code) <==> code == RAW_STRATEGY_DCT);
    }
    lemma_asked_sub_blocks(gates, scales, code);
}

proof fn lemma_asked_sub_blocks(gates: SearchGates, scales: SearchScales, code: u8)
    ensures
        asked(sub_block_jobs(subblock_specs_of(gates, scales)), code) <==> {
            ||| gates.sub_blocks && (code == RAW_STRATEGY_DCT4X4 || code == RAW_STRATEGY_DCT2X2
                || code == RAW_STRATEGY_IDENTITY)
            ||| gates.dct4x8 && (code == RAW_STRATEGY_DCT4X8 || code == RAW_STRATEGY_DCT8X4)
        },
{
    reveal(sub_block_jobs);
    let specs = subblock_specs_of(gates, scales);
    let jobs = sub_block_jobs(specs);
    assert forall|j: int| 0 <= j < jobs.len() implies (asks_for(#[trigger] jobs[j], code) <==> code
        == specs[j].raw_strategy) by {}
    let p: int = if gates.sub_blocks {
        1
    } else {
        0
    };
    let q: int = if gates.dct4x8 {
        p + 2
    } else {
        p
    };
    if gates.sub_blocks {
        assert(jobs[0] == CostJob::SubBlock(specs[0]) && specs[0].raw_strategy
            == RAW_STRATEGY_DCT4X4);
        assert(jobs[q] == CostJob::SubBlock(specs[q]) && specs[q].raw_strategy
            == RAW_STRATEGY_IDENTITY);
        assert(jobs[q + 1] == CostJob::SubBlock(specs[q + 1]) && specs[q + 1].raw_strategy
            == RAW_STRATEGY_DCT2X2);
    }
    if gates.dct4x8 {
        assert(jobs[p] == CostJob::SubBlock(specs[p]) && specs[p].raw_strategy
            == RAW_STRATEGY_DCT4X8);
        assert(jobs[p + 1] == CostJob::SubBlock(specs[p + 1]) && specs[p + 1].raw_strategy
            == RAW_STRATEGY_DCT8X4);
    }
}

/// How many costs the transform with a code has in an image of `xs8` by `ys8`
/// 8x8 blocks: one for each place that it can take. The four AFV transforms come
/// together.
pub open spec fn count_for(code: u8, xs8: int, ys8: int) -> int {
    let places = (xs8 / span(code).0) * (ys8 / span(code).1);
    if asks_for(CostJob::Afv, code) {
        4 * places
    } else {
        places
    }
}

/// Whether every job of a search is answered with as many costs as its
/// transform has.
pub open spec fn answered(
    jobs: Seq<CostJob>,
    replies: Seq<Seq<Float32>>,
    xs8: int,
    ys8: int,
) -> bool {
    &&& replies.len() == jobs.len()
    &&& forall|j: int, code: u8|
        0 <= j < jobs.len() && asks_for(#[trigger] jobs[j], code) ==> replies[j].len()
            == #[trigger] count_for(code, xs8, ys8)
}

proof fn lemma_answer(
    jobs: Seq<CostJob>,
    replies: Seq<Seq<Float32>>,
    xs8: int,
    ys8: int,
    code: u8,
)
    requires
        answered(jobs, replies, xs8, ys8),
    ensures
        asked(jobs, code) ==> reply_for(jobs, replies, code).len() == count_for(code, xs8, ys8),
        !asked(jobs, code) ==> reply_for(jobs, replies, code).len() == 0,
    decreases jobs.len(),
{
    if jobs.len() > 0 {
        let before = jobs.drop_last();
        let earlier = replies.drop_last();
        let last = jobs.len() - 1;
        assert forall|j: int, c: u8|
            0 <= j < before.len() && asks_for(#[trigger] before[j], c) implies earlier[j].len()
            == #[trigger] count_for(c, xs8, ys8) by {
            assert(before[j] == jobs[j]);
        }
        lemma_answer(before, earlier, xs8, ys8, code);
        assert(asks_for(jobs[last], code) ==> replies[last].len() == count_for(code, xs8, ys8));
        if asked(before, code) {
            let j = choose|j: int| 0 <= j < before.len() && asks_for(#[trigger] before[j], code);
            assert(asks_for(jobs[j], code));
        }
        if asked(jobs, code) && !asks_for(jobs[last], code) {
            let j = choose|j: int| 0 <= j < jobs.len() && asks_for(#[trigger] jobs[j], code);
            assert(asks_for(before[j], code));
        }
    }
}

/// How long the list of a transform is.
proof fn lemma_list_len(o: Offers, code: u8)
    requires
        o.gates.dct4x8 ==> o.gates.sub_blocks,
        answered(o.jobs(), o.replies, o.xs8, o.ys8),
        collected(o.jobs(), o.replies).dct8.len() == o.xs8 * o.ys8,
        ({
            let raw = collected(o.jobs(), o.replies);
            raw.afv.len() == 0 || raw.afv.len() == 4 * raw.dct8.len()
        }),
        code <= RAW_STRATEGY_DCT32X64,
    ensures
        ({
            let n = own_list(o.costs(), code).len();
            &&& !allows(o.gates, o.afv, code) ==> n == 0
            &&& allows(o.gates, o.afv, code) && !asks_for(CostJob::Afv, code) ==> n == (o.xs8
                / span(code).0) * (o.ys8 / span(code).1)
            &&& asks_for(CostJob::Afv, code) ==> n == 0 || n == o.xs8 * o.ys8
        }),
{
    law_costs_are_those_asked_for(o.gates, o.scales, o.afv, o.replies, code, 0);
    law_considered_transforms_are_asked_for(o.gates, o.scales, o.afv, code);
    lemma_answer(o.jobs(), o.replies, o.xs8, o.ys8, code);
}

/// A search ends with a plan where every job is answered with as many costs as
/// its transform has places.
#[verifier::rlimit(40)]
pub proof fn law_answered_searches_end(
    le: LossyEncoder,
    scales: SearchScales,
    afv: bool,
    replies: Seq<Seq<Float32>>,
)
    requires
        le.wf(),
        answered(
            jobs_of(
                gates_at(le.effort as int, le.padded_width as int, le.padded_height as int),
                scales,
                afv,
            ),
            replies,
            le.padded_width as int / 8,
            le.padded_height as int / 8,
        ),
    ensures
        ({
            let gates = gates_at(
                le.effort as int,
                le.padded_width as int,
                le.padded_height as int,
            );
            costs_suit(le, collected(jobs_of(gates, scales, afv), replies), gates, scales)
        }),
{
    let gates = gates_at(le.effort as int, le.padded_width as int, le.padded_height as int);
    let xs8 = le.padded_width as int / 8;
    let ys8 = le.padded_height as int / 8;
    let o = Offers { gates, scales, afv, replies, xs8, ys8 };
    let jobs = o.jobs();
    let raw = collected(jobs, replies);
    lemma_search_jobs(gates, scales, afv);
    lemma_found(jobs, replies);
    assert(xs8 / 1 == xs8 && ys8 / 1 == ys8);
    lemma_answer(jobs, replies, xs8, ys8, RAW_STRATEGY_DCT);
    law_considered_transforms_are_asked_for(gates, scales, afv, RAW_STRATEGY_DCT);
    lemma_answer(jobs, replies, xs8, ys8, RAW_STRATEGY_AFV0);
    assert(raw.dct8.len() == xs8 * ys8);
    assert(raw.afv.len() == 0 || raw.afv.len() == 4 * raw.dct8.len());
    lemma_list_len(o, RAW_STRATEGY_DCT);
    lemma_list_len(o, RAW_STRATEGY_DCT16X16);
    lemma_list_len(o, RAW_STRATEGY_DCT16X8);
    lemma_list_len(o, RAW_STRATEGY_DCT8X16);
    lemma_list_len(o, RAW_STRATEGY_DCT4X4);
    lemma_list_len(o, RAW_STRATEGY_DCT4X8);
    lemma_list_len(o, RAW_STRATEGY_DCT8X4);
    lemma_list_len(o, RAW_STRATEGY_IDENTITY);
    lemma_list_len(o, RAW_STRATEGY_DCT2X2);
    lemma_list_len(o, RAW_STRATEGY_AFV0);
    lemma_list_len(o, RAW_STRATEGY_AFV1);
    lemma_list_len(o, RAW_STRATEGY_AFV2);
    lemma_list_len(o, RAW_STRATEGY_AFV3);
    lemma_list_len(o, RAW_STRATEGY_DCT32X32);
    lemma_list_len(o, RAW_STRATEGY_DCT32X16);
    lemma_list_len(o, RAW_STRATEGY_DCT16X32);
    lemma_list_len(o, RAW_STRATEGY_DCT64X64);
    lemma_list_len(o, RAW_STRATEGY_DCT64X32);
    lemma_list_len(o, RAW_STRATEGY_DCT32X64);
    let c = o.costs();
    assert(c.sub_blocks().reaches(xs8 * ys8));
    assert(c.extras16().fits(xs8, ys8));
}

} // verus!

//! From the costs that come back from the device to the transforms chosen.

use crate::assignment::{
    layout, partitions_16x16_to_assignments, partitions_32x32_to_assignments,
    partitions_64x64_to_assignments, placements, region16, region32, region64, Placement,
    StrategyAssignment,
};
use crate::assignment_laws::{law_regions16_tile, law_regions32_tile, law_regions64_tile, tiles};
use crate::float::{product, Float32};
use crate::partition::{
    cells_choice, choice16, choice32, choice32_of_parts, choice64, lemma_cell_of_index,
    pick_subblock_strategies, select_partitions_16x16_full, select_partitions_32x32_of_parts,
    select_partitions_32x32_with_extras16, select_partitions_64x64_with_extras16,
    sub_block_partition, CostGrids16x16, CostGrids32x32, CostGrids64x64, Grids16, Grids32, Grids64,
    Partition16x16, Partition32x32, Partition64x64, SubBlockCostGrids, SubBlockGrids, SubStrategy,
};
use crate::quality::float;
use crate::search::{
    subblock_specs, subblock_specs_of, SearchGates, SearchScales, SubblockStratSpec,
    ENTROPY_MUL_DCT32X32,
};
use crate::strategy::{
    RAW_STRATEGY_DCT2X2, RAW_STRATEGY_DCT4X4, RAW_STRATEGY_DCT4X8, RAW_STRATEGY_DCT8X4,
    RAW_STRATEGY_IDENTITY,
};
use vstd::prelude::*;

verus! {

/// The costs of a search as they come back from the device. A list is empty
/// where its transform was not considered.
pub struct RawCosts {
    pub dct8: Vec<Float32>,
    pub dct16x16: Vec<Float32>,
    pub dct16x8: Vec<Float32>,
    pub dct8x16: Vec<Float32>,
    /// The costs of the transforms within 8x8 blocks, one list for each, in
    /// the order in which they were asked for.
    pub sub_blocks: Vec<Vec<Float32>>,
    /// The costs of the four AFV transforms, one after the other.
    pub afv: Vec<Float32>,
    pub dct32x32: Vec<Float32>,
    pub dct32x16: Vec<Float32>,
    pub dct16x32: Vec<Float32>,
    pub dct64x64: Vec<Float32>,
    pub dct64x32: Vec<Float32>,
    pub dct32x64: Vec<Float32>,
}

/// The costs that a choice is made by, one list for each transform; empty
/// where it was not considered.
pub struct CostTable {
    pub dct8: Vec<Float32>,
    pub dct16x16: Vec<Float32>,
    pub dct16x8: Vec<Float32>,
    pub dct8x16: Vec<Float32>,
    pub dct4x4: Vec<Float32>,
    pub dct4x8: Vec<Float32>,
    pub dct8x4: Vec<Float32>,
    pub identity: Vec<Float32>,
    pub dct2x2: Vec<Float32>,
    pub afv0: Vec<Float32>,
    pub afv1: Vec<Float32>,
    pub afv2: Vec<Float32>,
    pub afv3: Vec<Float32>,
    pub dct32x32: Vec<Float32>,
    pub dct32x16: Vec<Float32>,
    pub dct16x32: Vec<Float32>,
    pub dct64x64: Vec<Float32>,
    pub dct64x32: Vec<Float32>,
    pub dct32x64: Vec<Float32>,
}

/// What a [`CostTable`] holds.
#[verifier::ext_equal]
pub struct Costs {
    pub dct8: Seq<Float32>,
    pub dct16x16: Seq<Float32>,
    pub dct16x8: Seq<Float32>,
    pub dct8x16: Seq<Float32>,
    pub dct4x4: Seq<Float32>,
    pub dct4x8: Seq<Float32>,
    pub dct8x4: Seq<Float32>,
    pub identity: Seq<Float32>,
    pub dct2x2: Seq<Float32>,
    pub afv0: Seq<Float32>,
    pub afv1: Seq<Float32>,
    pub afv2: Seq<Float32>,
    pub afv3: Seq<Float32>,
    pub dct32x32: Seq<Float32>,
    pub dct32x16: Seq<Float32>,
    pub dct16x32: Seq<Float32>,
    pub dct64x64: Seq<Float32>,
    pub dct64x32: Seq<Float32>,
    pub dct32x64: Seq<Float32>,
}

impl View for CostTable {
    type V = Costs;

    open spec fn view(&self) -> Costs {
        Costs {
            dct8: self.dct8@,
            dct16x16: self.dct16x16@,
            dct16x8: self.dct16x8@,
            dct8x16: self.dct8x16@,
            dct4x4: self.dct4x4@,
            dct4x8: self.dct4x8@,
            dct8x4: self.dct8x4@,
            identity: self.identity@,
            dct2x2: self.dct2x2@,
            afv0: self.afv0@,
            afv1: self.afv1@,
            afv2: self.afv2@,
            afv3: self.afv3@,
            dct32x32: self.dct32x32@,
            dct32x16: self.dct32x16@,
            dct16x32: self.dct16x32@,
            dct64x64: self.dct64x64@,
            dct64x32: self.dct64x32@,
            dct32x64: self.dct32x64@,
        }
    }
}

/// A list of costs that a search needs.
#[derive(Clone, Copy, Debug, PartialEq, Eq, Structural)]
pub enum CostJob {
    Dct8,
    Dct16x16,
    /// A transform within 8x8 blocks.
    SubBlock(SubblockStratSpec),
    /// The four AFV transforms.
    Afv,
    Dct16x8,
    Dct8x16,
    /// DCT32x32 with its entropy multiplier; its quantization follows the
    /// scales of the blocks.
    Dct32x32(Float32),
    Dct32x16,
    Dct16x32,
    Dct64x64,
    Dct64x32,
    Dct32x64,
}

/// The jobs of some transforms, or none where they are not considered.
#[verifier::opaque]
pub open spec fn jobs_if(on: bool, jobs: Seq<CostJob>) -> Seq<CostJob> {
    if on {
        jobs
    } else {
        Seq::empty()
    }
}

/// The lists of costs that a search needs, in the order in which they are
/// computed.
#[verifier::opaque]
pub open spec fn jobs_of(gates: SearchGates, scales: SearchScales, afv: bool) -> Seq<CostJob> {
    seq![CostJob::Dct8] + jobs_if(gates.dct16, seq![CostJob::Dct16x16]) + sub_block_jobs(
        subblock_specs_of(gates, scales),
    ) + jobs_if(afv, seq![CostJob::Afv]) + jobs_if(
        gates.dct16,
        seq![CostJob::Dct16x8, CostJob::Dct8x16],
    ) + jobs_if(gates.dct32, seq![CostJob::Dct32x32(float(ENTROPY_MUL_DCT32X32))]) + jobs_if(
        gates.rect32,
        seq![CostJob::Dct32x16, CostJob::Dct16x32],
    ) + jobs_if(gates.dct64, seq![CostJob::Dct64x64, CostJob::Dct64x32, CostJob::Dct32x64])
}

fn append_if(jobs: &mut Vec<CostJob>, on: bool, more: Vec<CostJob>)
    ensures
        final(jobs)@ == old(jobs)@ + jobs_if(on, more@),
{
    proof {
        reveal(jobs_if);
    }
    if on {
        let mut i: usize = 0;
        while i < more.len()
            invariant
                i <= more@.len(),
                jobs@ == old(jobs)@ + more@.take(i as int),
            decreases more@.len() - i,
        {
            jobs.push(more[i]);
            i = i + 1;
            assert(jobs@ =~= old(jobs)@ + more@.take(i as int));
        }
        assert(more@.take(i as int) =~= more@);
    } else {
        assert(jobs@ =~= old(jobs)@ + jobs_if(on, more@));
    }
}

/// The jobs of transforms within 8x8 blocks.
#[verifier::opaque]
pub open spec fn sub_block_jobs(specs: Seq<SubblockStratSpec>) -> Seq<CostJob> {
    Seq::new(specs.len(), |i: int| CostJob::SubBlock(specs[i]))
}

fn append_sub_blocks(jobs: &mut Vec<CostJob>, specs: &[SubblockStratSpec])
    ensures
        final(jobs)@ == old(jobs)@ + sub_block_jobs(specs@),
{
    proof {
        reveal(sub_block_jobs);
    }
    let mut i: usize = 0;
    while i < specs.len()
        invariant
            i <= specs@.len(),
            jobs@ == old(jobs)@ + sub_block_jobs(specs@).take(i as int),
        decreases specs@.len() - i,
    {
        jobs.push(CostJob::SubBlock(specs[i]));
        i = i + 1;
        proof {
            reveal(sub_block_jobs);
        }
        assert(jobs@ =~= old(jobs)@ + sub_block_jobs(specs@).take(i as int));
    }
    assert(sub_block_jobs(specs@).take(i as int) =~= sub_block_jobs(specs@));
}

/// The lists of costs that a search needs, in the order in which they are
/// computed.
pub fn cost_jobs(gates: SearchGates, scales: SearchScales, afv: bool) -> (r: Vec<CostJob>)
    ensures
        r@ == jobs_of(gates, scales, afv),
{
    proof {
        reveal(jobs_of);
    }
    let specs: Vec<SubblockStratSpec> = subblock_specs(gates, scales);
    let mut jobs: Vec<CostJob> = vec![CostJob::Dct8];
    assert(jobs@ =~= seq![CostJob::Dct8]);
    let square16: Vec<CostJob> = vec![CostJob::Dct16x16];
    assert(square16@ =~= seq![CostJob::Dct16x16]);
    append_if(&mut jobs, gates.dct16, square16);
    append_sub_blocks(&mut jobs, specs.as_slice());
    let four: Vec<CostJob> = vec![CostJob::Afv];
    assert(four@ =~= seq![CostJob::Afv]);
    append_if(&mut jobs, afv, four);
    let rect16: Vec<CostJob> = vec![CostJob::Dct16x8, CostJob::Dct8x16];
    assert(rect16@ =~= seq![CostJob::Dct16x8, CostJob::Dct8x16]);
    append_if(&mut jobs, gates.dct16, rect16);
    let square32: Vec<CostJob> = vec![CostJob::Dct32x32(Float32::from_bits(ENTROPY_MUL_DCT32X32))];
    assert(square32@ =~= seq![CostJob::Dct32x32(float(ENTROPY_MUL_DCT32X32))]);
    append_if(&mut jobs, gates.dct32, square32);
    let rect32: Vec<CostJob> = vec![CostJob::Dct32x16, CostJob::Dct16x32];
    assert(rect32@ =~= seq![CostJob::Dct32x16, CostJob::Dct16x32]);
    append_if(&mut jobs, gates.rect32, rect32);
    let all64: Vec<CostJob> = vec![CostJob::Dct64x64, CostJob::Dct64x32, CostJob::Dct32x64];
    assert(all64@ =~= seq![CostJob::Dct64x64, CostJob::Dct64x32, CostJob::Dct32x64]);
    append_if(&mut jobs, gates.dct64, all64);
    jobs
}

/// What [`RawCosts`] hold.
#[verifier::ext_equal]
pub struct RawLists {
    pub dct8: Seq<Float32>,
    pub dct16x16: Seq<Float32>,
    pub dct16x8: Seq<Float32>,
    pub dct8x16: Seq<Float32>,
    pub sub_blocks: Seq<Seq<Float32>>,
    pub afv: Seq<Float32>,
    pub dct32x32: Seq<Float32>,
    pub dct32x16: Seq<Float32>,
    pub dct16x32: Seq<Float32>,
    pub dct64x64: Seq<Float32>,
    pub dct64x32: Seq<Float32>,
    pub dct32x64: Seq<Float32>,
}

impl View for RawCosts {
    type V = RawLists;

    open spec fn view(&self) -> RawLists {
        RawLists {
            dct8: self.dct8@,
            dct16x16: self.dct16x16@,
            dct16x8: self.dct16x8@,
            dct8x16: self.dct8x16@,
            sub_blocks: lists_of(self.sub_blocks@),
            afv: self.afv@,
            dct32x32: self.dct32x32@,
            dct32x16: self.dct32x16@,
            dct16x32: self.dct16x32@,
            dct64x64: self.dct64x64@,
            dct64x32: self.dct64x32@,
            dct32x64: self.dct32x64@,
        }
    }
}

impl RawLists {
    /// No costs at all.
    pub open spec fn none() -> RawLists {
        RawLists {
            dct8: Seq::empty(),
            dct16x16: Seq::empty(),
            dct16x8: Seq::empty(),
            dct8x16: Seq::empty(),
            sub_blocks: Seq::empty(),
            afv: Seq::empty(),
            dct32x32: Seq::empty(),
            dct32x16: Seq::empty(),
            dct16x32: Seq::empty(),
            dct64x64: Seq::empty(),
            dct64x32: Seq::empty(),
            dct32x64: Seq::empty(),
        }
    }

    /// With the costs that came back for a job.
    pub open spec fn with(self, job: CostJob, costs: Seq<Float32>) -> RawLists {
        match job {
            CostJob::Dct8 => RawLists { dct8: costs, ..self },
            CostJob::Dct16x16 => RawLists { dct16x16: costs, ..self },
            CostJob::SubBlock(_) => RawLists { sub_blocks: self.sub_blocks.push(costs), ..self },
            CostJob::Afv => RawLists { afv: costs, ..self },
            CostJob::Dct16x8 => RawLists { dct16x8: costs, ..self },
            CostJob::Dct8x16 => RawLists { dct8x16: costs, ..self },
            CostJob::Dct32x32(_) => RawLists { dct32x32: costs, ..self },
            CostJob::Dct32x16 => RawLists { dct32x16: costs, ..self },
            CostJob::Dct16x32 => RawLists { dct16x32: costs, ..self },
            CostJob::Dct64x64 => RawLists { dct64x64: costs, ..self },
            CostJob::Dct64x32 => RawLists { dct64x32: costs, ..self },
            CostJob::Dct32x64 => RawLists { dct32x64: costs, ..self },
        }
    }
}

/// The costs that came back for some jobs, one list for each.
pub open spec fn collected(jobs: Seq<CostJob>, replies: Seq<Seq<Float32>>) -> RawLists
    decreases jobs.len(),
{
    if jobs.len() == 0 {
        RawLists::none()
    } else {
        collected(jobs.drop_last(), replies.drop_last()).with(jobs.last(), replies.last())
    }
}

/// Puts together the costs that came back for some jobs, one list for each.
pub fn collect_costs(jobs: &[CostJob], replies: Vec<Vec<Float32>>) -> (r: RawCosts)
    requires
        replies@.len() == jobs@.len(),
    ensures
        r@ == collected(jobs@, lists_of(replies@)),
{
    let ghost lists = lists_of(replies@);
    let mut r: RawCosts = RawCosts::new();
    let mut i: usize = 0;
    while i < jobs.len()
        invariant
            i <= jobs@.len(),
            replies@.len() == jobs@.len(),
            lists == lists_of(replies@),
            r@ == collected(jobs@.take(i as int), lists.take(i as int)),
        decreases jobs@.len() - i,
    {
        let costs: Vec<Float32> = copy_list(replies[i].as_slice());
        r.accept(jobs[i], costs);
        i = i + 1;
        proof {
            assert(jobs@.take(i as int).drop_last() =~= jobs@.take(i - 1));
            assert(lists.take(i as int).drop_last() =~= lists.take(i - 1));
            assert(lists.take(i as int).last() == replies@[i - 1]@);
        }
    }
    assert(jobs@.take(i as int) =~= jobs@);
    assert(lists.take(i as int) =~= lists);
    r
}

fn copy_list(v: &[Float32]) -> (r: Vec<Float32>)
    ensures
        r@ == v@,
{
    let mut r: Vec<Float32> = Vec::new();
    let mut i: usize = 0;
    while i < v.len()
        invariant
            i <= v@.len(),
            r@ == v@.take(i as int),
        decreases v@.len() - i,
    {
        r.push(v[i]);
        i = i + 1;
        assert(r@ =~= v@.take(i as int));
    }
    assert(v@.take(i as int) =~= v@);
    r
}

/// The contents of lists.
pub open spec fn lists_of(v: Seq<Vec<Float32>>) -> Seq<Seq<Float32>> {
    Seq::new(v.len(), |i: int| v[i]@)
}

impl RawCosts {
    fn new() -> (r: RawCosts)
        ensures
            r@ == RawLists::none(),
    {
        let r: RawCosts = RawCosts {
            dct8: Vec::new(),
            dct16x16: Vec::new(),
            dct16x8: Vec::new(),
            dct8x16: Vec::new(),
            sub_blocks: Vec::new(),
            afv: Vec::new(),
            dct32x32: Vec::new(),
            dct32x16: Vec::new(),
            dct16x32: Vec::new(),
            dct64x64: Vec::new(),
            dct64x32: Vec::new(),
            dct32x64: Vec::new(),
        };
        assert(r@ =~= RawLists::none());
        r
    }

    fn accept(&mut self, job: CostJob, costs: Vec<Float32>)
        ensures
            final(self)@ == old(self)@.with(job, costs@),
    {
        match job {
            CostJob::Dct8 => self.dct8 = costs,
            CostJob::Dct16x16 => self.dct16x16 = costs,
            CostJob::SubBlock(_) => self.sub_blocks.push(costs),
            CostJob::Afv => self.afv = costs,
            CostJob::Dct16x8 => self.dct16x8 = costs,
            CostJob::Dct8x16 => self.dct8x16 = costs,
            CostJob::Dct32x32(_) => self.dct32x32 = costs,
            CostJob::Dct32x16 => self.dct32x16 = costs,
            CostJob::Dct16x32 => self.dct16x32 = costs,
            CostJob::Dct64x64 => self.dct64x64 = costs,
            CostJob::Dct64x32 => self.dct64x32 = costs,
            CostJob::Dct32x64 => self.dct32x64 = costs,
        }
        assert(self@ =~= old(self)@.with(job, costs@));
    }
}

/// Numbers multiplied by a factor.
pub open spec fn scaled(s: Seq<Float32>, factor: Float32) -> Seq<Float32> {
    Seq::new(s.len(), |i: int| product(s[i], factor))
}

/// One of the lists that came back, or none where it is missing.
pub open spec fn list_at(lists: Seq<Seq<Float32>>, i: int) -> Seq<Float32> {
    if 0 <= i < lists.len() {
        lists[i]
    } else {
        Seq::empty()
    }
}

/// Where the costs of DCT4x8 stand among those asked for; DCT8x4 comes next.
pub open spec fn place_of_dct4x8(gates: SearchGates) -> int {
    if gates.sub_blocks {
        1
    } else {
        0
    }
}

/// Where the costs of the identity transform stand among those asked for;
/// DCT2x2 comes next.
pub open spec fn place_of_identity(gates: SearchGates) -> int {
    if gates.dct4x8 {
        3
    } else {
        1
    }
}

/// A list, or none where it was not considered.
pub open spec fn considered(on: bool, s: Seq<Float32>) -> Seq<Float32> {
    if on {
        s
    } else {
        Seq::empty()
    }
}

/// The costs of one of the AFV transforms, multiplied by a factor.
pub open spec fn afv_part(afv: Seq<Float32>, n: int, kind: int, factor: Float32) -> Seq<Float32> {
    if afv.len() == 0 {
        Seq::empty()
    } else {
        scaled(afv.subrange(kind * n, (kind + 1) * n), factor)
    }
}

/// The costs that a choice is made by: those that came back, each in its
/// place and multiplied by the factor for its size.
pub open spec fn weighed(raw: RawLists, gates: SearchGates, scales: SearchScales) -> Costs {
    let n = raw.dct8.len() as int;
    let lists = raw.sub_blocks;
    let bias = scales.dist_bias;
    let p = place_of_dct4x8(gates);
    let q = place_of_identity(gates);
    Costs {
        dct8: scaled(raw.dct8, scales.mul_8x8),
        dct16x16: scaled(raw.dct16x16, bias),
        dct16x8: scaled(raw.dct16x8, bias),
        dct8x16: scaled(raw.dct8x16, bias),
        dct4x4: scaled(considered(gates.sub_blocks, list_at(lists, 0)), bias),
        dct4x8: scaled(considered(gates.dct4x8, list_at(lists, p)), bias),
        dct8x4: scaled(considered(gates.dct4x8, list_at(lists, p + 1)), bias),
        identity: scaled(considered(gates.sub_blocks, list_at(lists, q)), bias),
        dct2x2: scaled(considered(gates.sub_blocks, list_at(lists, q + 1)), bias),
        afv0: afv_part(raw.afv, n, 0, bias),
        afv1: afv_part(raw.afv, n, 1, bias),
        afv2: afv_part(raw.afv, n, 2, bias),
        afv3: afv_part(raw.afv, n, 3, bias),
        dct32x32: scaled(raw.dct32x32, scales.dist_bias_32),
        dct32x16: scaled(raw.dct32x16, scales.dist_bias_32),
        dct16x32: scaled(raw.dct16x32, scales.dist_bias_32),
        dct64x64: scaled(raw.dct64x64, scales.dist_bias_64),
        dct64x32: scaled(raw.dct64x32, scales.dist_bias_64),
        dct32x64: scaled(raw.dct32x64, scales.dist_bias_64),
    }
}

/// Costs go to the transforms that they were asked for.
pub proof fn law_costs_reach_their_transforms(gates: SearchGates, scales: SearchScales)
    ensures
        gates.sub_blocks ==> subblock_specs_of(gates, scales)[0].raw_strategy
            == RAW_STRATEGY_DCT4X4,
        gates.dct4x8 ==> subblock_specs_of(gates, scales)[place_of_dct4x8(gates)].raw_strategy
            == RAW_STRATEGY_DCT4X8,
        gates.dct4x8 ==> subblock_specs_of(gates, scales)[place_of_dct4x8(gates) + 1].raw_strategy
            == RAW_STRATEGY_DCT8X4,
        gates.sub_blocks ==> subblock_specs_of(
            gates,
            scales,
        )[place_of_identity(gates)].raw_strategy == RAW_STRATEGY_IDENTITY,
        gates.sub_blocks ==> subblock_specs_of(
            gates,
            scales,
        )[place_of_identity(gates) + 1].raw_strategy == RAW_STRATEGY_DCT2X2,
{
}

fn multiply(s: &[Float32], factor: Float32) -> (r: Vec<Float32>)
    ensures
        r@ == scaled(s@, factor),
{
    let mut r: Vec<Float32> = Vec::new();
    let mut i: usize = 0;
    while i < s.len()
        invariant
            i <= s@.len(),
            r@ == scaled(s@.take(i as int), factor),
        decreases s@.len() - i,
    {
        r.push(s[i].times(factor));
        i = i + 1;
        assert(r@ =~= scaled(s@.take(i as int), factor));
    }
    assert(s@.take(i as int) =~= s@);
    r
}

fn multiply_list(lists: &[Vec<Float32>], i: usize, on: bool, factor: Float32) -> (r: Vec<Float32>)
    ensures
        r@ == scaled(
            considered(on, list_at(lists_of(lists@), i as int)),
            factor,
        ),
{
    if on && i < lists.len() {
        multiply(lists[i].as_slice(), factor)
    } else {
        let r: Vec<Float32> = Vec::new();
        assert(r@ =~= scaled(
            considered(on, list_at(lists_of(lists@), i as int)),
            factor,
        ));
        r
    }
}

fn multiply_afv(afv: &[Float32], n: usize, kind: usize, factor: Float32) -> (r: Vec<Float32>)
    requires
        kind < 4,
        afv@.len() == 0 || afv@.len() == 4 * n,
    ensures
        r@ == afv_part(afv@, n as int, kind as int, factor),
{
    if afv.len() == 0 {
        Vec::new()
    } else {
        assert(0 <= kind * n && kind * n + n == (kind + 1) * n && (kind + 1) * n <= 4 * n)
            by (nonlinear_arith)
            requires
                kind < 4,
        ;
        let start: usize = kind * n;
        multiply(vstd::slice::slice_subrange(afv, start, start + n), factor)
    }
}

/// Puts the costs that came back in their places, multiplied by the factors
/// for their sizes.
pub fn weigh_costs(raw: &RawCosts, gates: SearchGates, scales: SearchScales) -> (r: CostTable)
    requires
        raw.afv@.len() == 0 || raw.afv@.len() == 4 * raw.dct8@.len(),
    ensures
        r@ == weighed(raw@, gates, scales),
{
    let n: usize = raw.dct8.len();
    let lists: &[Vec<Float32>] = raw.sub_blocks.as_slice();
    let bias: Float32 = scales.dist_bias;
    let p: usize = if gates.sub_blocks {
        1
    } else {
        0
    };
    let q: usize = if gates.dct4x8 {
        3
    } else {
        1
    };
    let afv: &[Float32] = raw.afv.as_slice();
    CostTable {
        dct8: multiply(raw.dct8.as_slice(), scales.mul_8x8),
        dct16x16: multiply(raw.dct16x16.as_slice(), bias),
        dct16x8: multiply(raw.dct16x8.as_slice(), bias),
        dct8x16: multiply(raw.dct8x16.as_slice(), bias),
        dct4x4: multiply_list(lists, 0, gates.sub_blocks, bias),
        dct4x8: multiply_list(lists, p, gates.dct4x8, bias),
        dct8x4: multiply_list(lists, p + 1, gates.dct4x8, bias),
        identity: multiply_list(lists, q, gates.sub_blocks, bias),
        dct2x2: multiply_list(lists, q + 1, gates.sub_blocks, bias),
        afv0: multiply_afv(afv, n, 0, bias),
        afv1: multiply_afv(afv, n, 1, bias),
        afv2: multiply_afv(afv, n, 2, bias),
        afv3: multiply_afv(afv, n, 3, bias),
        dct32x32: multiply(raw.dct32x32.as_slice(), scales.dist_bias_32),
        dct32x16: multiply(raw.dct32x16.as_slice(), scales.dist_bias_32),
        dct16x32: multiply(raw.dct16x32.as_slice(), scales.dist_bias_32),
        dct64x64: multiply(raw.dct64x64.as_slice(), scales.dist_bias_64),
        dct64x32: multiply(raw.dct64x32.as_slice(), scales.dist_bias_64),
        dct32x64: multiply(raw.dct32x64.as_slice(), scales.dist_bias_64),
    }
}

/// A list of costs, or none where it is empty.
pub open spec fn present(s: Seq<Float32>) -> Option<Seq<Float32>> {
    if s.len() == 0 {
        None
    } else {
        Some(s)
    }
}

impl SearchGates {
    /// Whether the transforms considered fit an image of `xs8` by `ys8` 8x8
    /// blocks, and whether with each the smaller ones are considered that its
    /// choice builds on.
    pub open spec fn sound(self, xs8: int, ys8: int) -> bool {
        &&& xs8 % 2 == 0 && ys8 % 2 == 0
        &&& self.rect32 ==> self.dct16 && xs8 % 4 == 0 && ys8 % 4 == 0
        &&& self.dct32 ==> self.rect32
        &&& self.dct64 ==> self.dct32 && xs8 % 8 == 0 && ys8 % 8 == 0
    }
}

impl Costs {
    /// The costs of the transforms within 8x8 blocks.
    pub open spec fn sub_blocks(self) -> SubBlockGrids {
        SubBlockGrids {
            dct4x4: present(self.dct4x4),
            dct4x8: present(self.dct4x8),
            dct8x4: present(self.dct8x4),
            identity: present(self.identity),
            dct2x2: present(self.dct2x2),
            afv0: present(self.afv0),
            afv1: present(self.afv1),
            afv2: present(self.afv2),
            afv3: present(self.afv3),
        }
    }

    /// The costs within 16x16 regions, DCT16x16 and DCT8 aside.
    pub open spec fn extras16(self) -> Grids16 {
        Grids16 {
            dct_16x8: present(self.dct16x8),
            dct_8x16: present(self.dct8x16),
            sub_blocks: self.sub_blocks(),
        }
    }

    /// The costs of the rectangular transforms in 32x32 regions.
    pub open spec fn extras32(self) -> Grids32 {
        Grids32 { dct_32x16: Some(self.dct32x16), dct_16x32: Some(self.dct16x32) }
    }

    /// The costs of the rectangular transforms in 64x64 regions.
    pub open spec fn extras64(self) -> Grids64 {
        Grids64 { dct_64x32: Some(self.dct64x32), dct_32x64: Some(self.dct32x64) }
    }

    /// Whether the lists have the lengths that an image of `xs8` by `ys8` 8x8
    /// blocks calls for.
    pub open spec fn fits(self, gates: SearchGates, xs8: int, ys8: int) -> bool {
        &&& self.dct8.len() == xs8 * ys8
        &&& gates.dct16 ==> self.dct16x16.len() == (xs8 / 2) * (ys8 / 2)
        &&& self.extras16().fits(xs8, ys8)
        &&& gates.rect32 ==> self.extras32().fits(xs8, ys8)
        &&& gates.dct32 ==> self.dct32x32.len() == (xs8 / 4) * (ys8 / 4)
        &&& gates.dct64 ==> self.dct64x64.len() == (xs8 / 8) * (ys8 / 8)
        &&& gates.dct64 ==> self.extras64().fits(xs8, ys8)
    }

    /// The partition of the 16x16 region at (`rx`, `ry`) where nothing larger
    /// than 8x8 blocks is considered.
    pub open spec fn small_choice(self, xs8: int, rx: int, ry: int) -> Partition16x16 {
        sub_block_partition(cells_choice(self.dct8, self.sub_blocks(), xs8, rx, ry).1)
    }

    /// The partitions of the 16x16 regions.
    pub open spec fn partitions16(self, gates: SearchGates, xs8: int, ys8: int) -> Seq<
        Partition16x16,
    > {
        Seq::new(
            ((xs8 / 2) * (ys8 / 2)) as nat,
            |k: int|
                if gates.dct16 {
                    choice16(
                        self.dct8,
                        self.dct16x16,
                        self.extras16(),
                        xs8,
                        k % (xs8 / 2),
                        k / (xs8 / 2),
                    ).1
                } else {
                    self.small_choice(xs8, k % (xs8 / 2), k / (xs8 / 2))
                },
        )
    }

    /// The partitions of the 32x32 regions.
    pub open spec fn partitions32(self, gates: SearchGates, xs8: int, ys8: int) -> Seq<
        Partition32x32,
    > {
        Seq::new(
            ((xs8 / 4) * (ys8 / 4)) as nat,
            |k: int|
                if gates.dct32 {
                    choice32(
                        self.dct8,
                        self.dct16x16,
                        self.dct32x32,
                        self.extras32(),
                        self.extras16(),
                        xs8,
                        k % (xs8 / 4),
                        k / (xs8 / 4),
                    ).1
                } else {
                    choice32_of_parts(
                        self.dct8,
                        self.dct16x16,
                        self.extras32(),
                        self.extras16(),
                        xs8,
                        k % (xs8 / 4),
                        k / (xs8 / 4),
                    ).1
                },
        )
    }

    /// The partitions of the 64x64 regions.
    pub open spec fn partitions64(self, xs8: int, ys8: int) -> Seq<Partition64x64> {
        Seq::new(
            ((xs8 / 8) * (ys8 / 8)) as nat,
            |k: int|
                choice64(
                    self.dct8,
                    self.dct16x16,
                    self.dct32x32,
                    self.dct64x64,
                    self.extras32(),
                    self.extras64(),
                    self.extras16(),
                    xs8,
                    k % (xs8 / 8),
                    k / (xs8 / 8),
                ).1,
        )
    }

    /// The transforms chosen: region by region, in the largest regions that
    /// are considered.
    pub open spec fn chosen(self, gates: SearchGates, xs8: int, ys8: int) -> Seq<Placement> {
        if gates.dct64 {
            let p = self.partitions64(xs8, ys8);
            layout(Seq::new(p.len(), |i: int| region64(p[i])), xs8 / 8, 8)
        } else if gates.rect32 {
            let p = self.partitions32(gates, xs8, ys8);
            layout(Seq::new(p.len(), |i: int| region32(p[i])), xs8 / 4, 4)
        } else {
            let p = self.partitions16(gates, xs8, ys8);
            layout(Seq::new(p.len(), |i: int| region16(p[i])), xs8 / 2, 2)
        }
    }
}

/// The transforms chosen cover every 8x8 block of the image once, and none
/// outside it.
pub proof fn law_chosen_transforms_tile(costs: Costs, gates: SearchGates, xs8: int, ys8: int)
    requires
        xs8 >= 0,
        ys8 >= 0,
        gates.sound(xs8, ys8),
    ensures
        tiles(costs.chosen(gates, xs8, ys8), xs8, ys8),
{
    assert((xs8 / 2) * (ys8 / 2) >= 0 && (xs8 / 4) * (ys8 / 4) >= 0 && (xs8 / 8) * (ys8 / 8) >= 0)
        by (nonlinear_arith)
        requires
            xs8 >= 0,
            ys8 >= 0,
    ;
    if gates.dct64 {
        law_regions64_tile(costs.partitions64(xs8, ys8), xs8, ys8);
    } else if gates.rect32 {
        law_regions32_tile(costs.partitions32(gates, xs8, ys8), xs8, ys8);
    } else {
        law_regions16_tile(costs.partitions16(gates, xs8, ys8), xs8, ys8);
    }
}

fn offered(v: &[Float32]) -> (r: Option<&[Float32]>)
    ensures
        r is None <==> present(v@) is None,
        r matches Some(s) ==> present(v@) == Some(s@),
{
    if v.len() == 0 {
        None
    } else {
        Some(v)
    }
}

impl CostTable {
    fn sub_block_grids(&self) -> (r: SubBlockCostGrids<'_>)
        ensures
            r@ == self@.sub_blocks(),
    {
        SubBlockCostGrids {
            dct4x4: offered(self.dct4x4.as_slice()),
            dct4x8: offered(self.dct4x8.as_slice()),
            dct8x4: offered(self.dct8x4.as_slice()),
            identity: offered(self.identity.as_slice()),
            dct2x2: offered(self.dct2x2.as_slice()),
            afv0: offered(self.afv0.as_slice()),
            afv1: offered(self.afv1.as_slice()),
            afv2: offered(self.afv2.as_slice()),
            afv3: offered(self.afv3.as_slice()),
        }
    }

    fn grids16(&self) -> (r: CostGrids16x16<'_>)
        ensures
            r@ == self@.extras16(),
    {
        CostGrids16x16 {
            dct_16x8: offered(self.dct16x8.as_slice()),
            dct_8x16: offered(self.dct8x16.as_slice()),
            sub_blocks: self.sub_block_grids(),
        }
    }

    fn grids32(&self) -> (r: CostGrids32x32<'_>)
        ensures
            r@ == self@.extras32(),
    {
        CostGrids32x32 {
            dct_32x16: Some(self.dct32x16.as_slice()),
            dct_16x32: Some(self.dct16x32.as_slice()),
        }
    }

    fn grids64(&self) -> (r: CostGrids64x64<'_>)
        ensures
            r@ == self@.extras64(),
    {
        CostGrids64x64 {
            dct_64x32: Some(self.dct64x32.as_slice()),
            dct_32x64: Some(self.dct32x64.as_slice()),
        }
    }
}

/// The last 8x8 block of a 16x16 region lies within the image.
proof fn lemma_region_within(xs8: int, ys8: int, rx: int, ry: int)
    requires
        xs8 % 2 == 0,
        ys8 % 2 == 0,
        0 <= rx < xs8 / 2,
        0 <= ry < ys8 / 2,
    ensures
        (2 * ry + 1) * xs8 + 2 * rx + 2 <= xs8 * ys8,
        (2 * ry + 1) * xs8 == 2 * ry * xs8 + xs8,
{
    assert((2 * ry + 2) * xs8 <= ys8 * xs8) by (nonlinear_arith)
        requires
            2 * ry + 2 <= ys8,
            xs8 >= 0,
    ;
    assert((2 * ry + 2) * xs8 == (2 * ry + 1) * xs8 + xs8 && (2 * ry + 1) * xs8 == 2 * ry * xs8
        + xs8 && ys8 * xs8 == xs8 * ys8) by (nonlinear_arith);
}

fn four_small(subs: [SubStrategy; 4]) -> (r: Partition16x16)
    ensures
        r == sub_block_partition(subs),
{
    if subs[0] == SubStrategy::Dct8 && subs[1] == SubStrategy::Dct8 && subs[2]
        == SubStrategy::Dct8 && subs[3] == SubStrategy::Dct8 {
        Partition16x16::FourDct8x8
    } else {
        Partition16x16::FourSubBlocks(subs)
    }
}

impl CostTable {
    /// The partitions of the 16x16 regions into transforms of 8x8 blocks
    /// alone.
    fn small_partitions(&self, xs8: usize, ys8: usize) -> (r: Vec<Partition16x16>)
        requires
            xs8 % 2 == 0,
            ys8 % 2 == 0,
            self.dct8@.len() == xs8 * ys8,
            self@.sub_blocks().reaches(xs8 * ys8),
        ensures
            r@.len() == (xs8 / 2) * (ys8 / 2),
            forall|k: int|
                0 <= k < r@.len() ==> #[trigger] r@[k] == self@.small_choice(
                    xs8 as int,
                    k % (xs8 as int / 2),
                    k / (xs8 as int / 2),
                ),
    {
        let xs16: usize = xs8 / 2;
        let ys16: usize = ys8 / 2;
        assert(xs16 * ys16 <= xs8 * ys8) by (nonlinear_arith)
            requires
                0 <= xs16 <= xs8,
                0 <= ys16 <= ys8,
        ;
        let total: usize = self.dct8.len();
        assert(total == xs8 * ys8);
        let n: usize = xs16 * ys16;
        let mut r: Vec<Partition16x16> = Vec::new();
        let mut k: usize = 0;
        while k < n
            invariant
                xs8 % 2 == 0,
                ys8 % 2 == 0,
                xs16 == xs8 / 2,
                ys16 == ys8 / 2,
                n == xs16 * ys16,
                self.dct8@.len() == xs8 * ys8,
                self@.sub_blocks().reaches(xs8 * ys8),
                k <= n,
                r@.len() == k,
                forall|j: int|
                    0 <= j < k ==> #[trigger] r@[j] == self@.small_choice(
                        xs8 as int,
                        j % (xs8 as int / 2),
                        j / (xs8 as int / 2),
                    ),
            decreases n - k,
        {
            proof {
                lemma_cell_of_index(xs16 as int, ys16 as int, k as int);
            }
            let rx: usize = k % xs16;
            let ry: usize = k / xs16;
            proof {
                lemma_region_within(xs8 as int, ys8 as int, rx as int, ry as int);
            }
            let cells: (Float32, [SubStrategy; 4]) = pick_subblock_strategies(
                self.dct8.as_slice(),
                self.sub_block_grids(),
                xs8,
                2 * rx,
                2 * ry,
            );
            r.push(four_small(cells.1));
            k = k + 1;
        }
        r
    }

    /// Whether the transforms considered fit an image of `xs8` by `ys8` 8x8
    /// blocks, and the lists have the lengths that it calls for.
    pub fn suits(&self, gates: SearchGates, xs8: usize, ys8: usize) -> (r: bool)
        requires
            xs8 * ys8 <= usize::MAX,
        ensures
            r == (gates.sound(xs8 as int, ys8 as int) && self@.fits(
                gates,
                xs8 as int,
                ys8 as int,
            )),
    {
        proof {
            lemma_region_counts(xs8 as int, ys8 as int);
        }
        let n: usize = xs8 * ys8;
        xs8 % 2 == 0 && ys8 % 2 == 0 && (!gates.rect32 || (gates.dct16 && xs8 % 4 == 0 && ys8 % 4
            == 0)) && (!gates.dct32 || gates.rect32) && (!gates.dct64 || (gates.dct32 && xs8 % 8
            == 0 && ys8 % 8 == 0)) && self.dct8.len() == n && (!gates.dct16
            || self.dct16x16.len() == (xs8 / 2) * (ys8 / 2)) && absent_or(
            &self.dct16x8,
            xs8 * (ys8 / 2),
        ) && absent_or(&self.dct8x16, (xs8 / 2) * ys8) && self.sub_blocks_reach(n) && (
        !gates.rect32 || (self.dct32x16.len() == (xs8 / 2) * (ys8 / 4) && self.dct16x32.len()
            == (xs8 / 4) * (ys8 / 2))) && (!gates.dct32 || self.dct32x32.len() == (xs8 / 4) * (ys8
            / 4)) && (!gates.dct64 || (self.dct64x64.len() == (xs8 / 8) * (ys8 / 8)
            && self.dct64x32.len() == (xs8 / 4) * (ys8 / 8) && self.dct32x64.len() == (xs8 / 8) * (
        ys8 / 4)))
    }

    fn sub_blocks_reach(&self, n: usize) -> (r: bool)
        ensures
            r == self@.sub_blocks().reaches(n as int),
    {
        absent_or_more(&self.dct4x4, n) && absent_or_more(&self.dct4x8, n) && absent_or_more(
            &self.dct8x4,
            n,
        ) && absent_or_more(&self.identity, n) && absent_or_more(&self.dct2x2, n)
            && absent_or_more(&self.afv0, n) && absent_or_more(&self.afv1, n) && absent_or_more(
            &self.afv2,
            n,
        ) && absent_or_more(&self.afv3, n)
    }

    /// Chooses the transforms of an image of `xs8` by `ys8` 8x8 blocks.
    pub fn choose_assignments(&self, gates: SearchGates, xs8: usize, ys8: usize) -> (r: Vec<
        StrategyAssignment,
    >)
        requires
            gates.sound(xs8 as int, ys8 as int),
            self@.fits(gates, xs8 as int, ys8 as int),
        ensures
            placements(r@) == self@.chosen(gates, xs8 as int, ys8 as int),
            tiles(placements(r@), xs8 as int, ys8 as int),
    {
        proof {
            law_chosen_transforms_tile(self@, gates, xs8 as int, ys8 as int);
        }
        if gates.dct64 {
            let p: Vec<Partition64x64> = select_partitions_64x64_with_extras16(
                self.dct8.as_slice(),
                self.dct16x16.as_slice(),
                self.dct32x32.as_slice(),
                self.dct64x64.as_slice(),
                self.grids32(),
                self.grids64(),
                self.grids16(),
                xs8,
                ys8,
            );
            assert(p@ =~= self@.partitions64(xs8 as int, ys8 as int));
            partitions_64x64_to_assignments(p.as_slice(), xs8, ys8)
        } else if gates.rect32 {
            let p: Vec<Partition32x32> = if gates.dct32 {
                select_partitions_32x32_with_extras16(
                    self.dct8.as_slice(),
                    self.dct16x16.as_slice(),
                    self.dct32x32.as_slice(),
                    self.grids32(),
                    self.grids16(),
                    xs8,
                    ys8,
                )
            } else {
                select_partitions_32x32_of_parts(
                    self.dct8.as_slice(),
                    self.dct16x16.as_slice(),
                    self.grids32(),
                    self.grids16(),
                    xs8,
                    ys8,
                )
            };
            assert(p@ =~= self@.partitions32(gates, xs8 as int, ys8 as int));
            partitions_32x32_to_assignments(p.as_slice(), xs8, ys8)
        } else {
            let p: Vec<Partition16x16> = if gates.dct16 {
                select_partitions_16x16_full(
                    self.dct8.as_slice(),
                    self.dct16x16.as_slice(),
                    self.grids16(),
                    xs8,
                    ys8,
                )
            } else {
                self.small_partitions(xs8, ys8)
            };
            assert(p@ =~= self@.partitions16(gates, xs8 as int, ys8 as int));
            partitions_16x16_to_assignments(p.as_slice(), xs8, ys8)
        }
    }
}

fn absent_or(v: &Vec<Float32>, n: usize) -> (r: bool)
    ensures
        r == (present(v@) matches Some(g) ==> g.len() == n),
{
    v.len() == 0 || v.len() == n
}

fn absent_or_more(v: &Vec<Float32>, n: usize) -> (r: bool)
    ensures
        r == (present(v@) matches Some(g) ==> g.len() >= n),
{
    v.len() == 0 || v.len() >= n
}

/// No kind of region is more numerous than the 8x8 blocks.
proof fn lemma_region_counts(xs8: int, ys8: int)
    requires
        xs8 >= 0,
        ys8 >= 0,
    ensures
        0 <= (xs8 / 2) * (ys8 / 2) <= xs8 * ys8,
        0 <= xs8 * (ys8 / 2) <= xs8 * ys8,
        0 <= (xs8 / 2) * ys8 <= xs8 * ys8,
        0 <= (xs8 / 2) * (ys8 / 4) <= xs8 * ys8,
        0 <= (xs8 / 4) * (ys8 / 2) <= xs8 * ys8,
        0 <= (xs8 / 4) * (ys8 / 4) <= xs8 * ys8,
        0 <= (xs8 / 8) * (ys8 / 8) <= xs8 * ys8,
        0 <= (xs8 / 4) * (ys8 / 8) <= xs8 * ys8,
        0 <= (xs8 / 8) * (ys8 / 4) <= xs8 * ys8,
{
    lemma_fewer(xs8, ys8, xs8 / 2, ys8 / 2);
    lemma_fewer(xs8, ys8, xs8, ys8 / 2);
    lemma_fewer(xs8, ys8, xs8 / 2, ys8);
    lemma_fewer(xs8, ys8, xs8 / 2, ys8 / 4);
    lemma_fewer(xs8, ys8, xs8 / 4, ys8 / 2);
    lemma_fewer(xs8, ys8, xs8 / 4, ys8 / 4);
    lemma_fewer(xs8, ys8, xs8 / 8, ys8 / 8);
    lemma_fewer(xs8, ys8, xs8 / 4, ys8 / 8);
    lemma_fewer(xs8, ys8, xs8 / 8, ys8 / 4);
}

proof fn lemma_fewer(a: int, b: int, c: int, d: int)
    requires
        0 <= c <= a,
        0 <= d <= b,
    ensures
        0 <= c * d <= a * b,
{
    assert(0 <= c * d <= a * b) by (nonlinear_arith)
        requires
            0 <= c <= a,
            0 <= d <= b,
    ;
}

} // verus!

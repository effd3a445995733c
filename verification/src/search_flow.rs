//! The course of a strategy search: what is decided after each answer of the
//! device.
//!
//! A search begins with [`LossyEncoder::prepare_strategy_search_plan`]. The
//! mask means that it reads back go into [`LossyEncoder::search_with_means`],
//! which says whether patches have to be looked for. What was found goes into
//! [`LossyEncoder::search_with_patches`], which says what costs are needed, and
//! the costs into [`LossyEncoder::search_with_costs`], which ends the search.

use crate::assignment::placements;
use crate::assignment_laws::tiles;
use crate::dataflow::Run;
use crate::device::{GpuEncoder, Handle, Recording};
use crate::encode::adaptive_field;
use crate::float::Float32;
use crate::lossy_encoder::LossyEncoder;
use crate::median::{is_median, screenshot_median};
use crate::pipeline::{Blocks, Planes};
use crate::plan::{
    dc_grids_steps, first_pixels, search_blocks_steps, SearchPlanes, StrategySearchPlan,
};
use crate::plan_laws::grids_hold_means;
use crate::search::{
    afv_evaluated, gates_at, patches_matter, reference_branch, scales_at, search_cost_model,
    search_model, ContentReading, CostModel, SearchGates, SearchScales,
};
use crate::search_costs::{
    collect_costs, collected, cost_jobs, jobs_of, lists_of, weigh_costs, weighed, CostJob,
    CostTable, RawCosts, RawLists,
};
use crate::search_laws::law_gates_are_sound;
use vstd::prelude::*;

verus! {

/// A search that has read the mask of its image. Where `wants_patches` holds,
/// the planes before sharpening are read back, and patches are looked for in
/// them.
pub struct SearchAfterMeans {
    pub planes: SearchPlanes,
    pub distance: Float32,
    pub content: ContentReading,
    pub wants_patches: bool,
}

/// A search that has settled what it considers. `jobs` are the lists of costs
/// that it needs, by the cost model `model`; `blocks` are the sharpened planes in 8x8 blocks, and
/// `first_pixels` says where those stand in the planes. Where `afv` holds, the
/// sharpened planes are read back.
pub struct SearchAfterPatches {
    pub planes: SearchPlanes,
    pub distance: Float32,
    pub aq_field: Vec<Float32>,
    pub afv: bool,
    pub gates: SearchGates,
    pub scales: SearchScales,
    pub model: CostModel,
    pub blocks: Blocks,
    pub first_pixels: Handle,
    pub jobs: Vec<CostJob>,
}

/// The reading back of three planes, where it is called for.
pub open spec fn read_if(s: Recording, on: bool, p: Planes) -> Recording {
    if on {
        s.read(seq![p.0.handle, p.1.handle, p.2.handle])
    } else {
        s
    }
}

/// Whether costs that came back have the lengths that an encoder's images call
/// for.
pub open spec fn costs_suit(
    le: LossyEncoder,
    raw: RawLists,
    gates: SearchGates,
    scales: SearchScales,
) -> bool {
    &&& raw.afv.len() == 0 || raw.afv.len() == 4 * raw.dct8.len()
    &&& weighed(raw, gates, scales).fits(
        gates,
        le.padded_width as int / 8,
        le.padded_height as int / 8,
    )
}

impl SearchAfterMeans {
    /// What follows from the mask means.
    pub open spec fn follows(
        self,
        le: LossyEncoder,
        planes: SearchPlanes,
        means: Seq<Float32>,
        distance: Float32,
    ) -> bool {
        &&& self.planes == planes
        &&& self.distance == distance
        &&& self.content.aq_field@ == adaptive_field(means, distance)
        &&& self.content.median is None <==> means.len() == 0
        &&& self.content.median matches Some(m) ==> is_median(means, m)
        &&& self.content.screenshot == screenshot_median(self.content.median)
        &&& self.wants_patches == patches_matter(le, self.content.screenshot)
    }
}

impl SearchAfterPatches {
    /// What follows once it is known whether there are patches; the blocks and
    /// the table of first pixels aside.
    pub open spec fn follows(
        self,
        le: LossyEncoder,
        before: SearchAfterMeans,
        patches: bool,
    ) -> bool {
        &&& self.planes == before.planes
        &&& self.distance == before.distance
        &&& self.aq_field@ == before.content.aq_field@
        &&& self.afv == afv_evaluated(le, before.content.screenshot, patches)
        &&& self.gates == gates_at(
            le.effort as int,
            le.padded_width as int,
            le.padded_height as int,
        )
        &&& self.scales == scales_at(
            le,
            before.distance,
            reference_branch(le, before.content.median),
        )
        &&& self.model == search_model()
        &&& self.jobs@ == jobs_of(self.gates, self.scales, self.afv)
    }
}

impl LossyEncoder {
    /// Goes on with a search once the mask means have come back.
    pub fn search_with_means(
        &self,
        enc: &mut GpuEncoder,
        planes: SearchPlanes,
        block_means: &[Float32],
        distance: Float32,
    ) -> (r: SearchAfterMeans)
        requires
            old(enc)@.wf(),
            self.holds_search(old(enc)@, planes),
        ensures
            r.follows(*self, planes, block_means@, distance),
            final(enc)@ == read_if(old(enc)@, r.wants_patches, planes.pre),
            final(enc)@.wf(),
            self.holds_search(final(enc)@, planes),
    {
        let content: ContentReading = self.read_content(block_means, distance);
        let wants_patches: bool = self.wants_patch_check(content.screenshot);
        if wants_patches {
            enc.download_planes_3ch(&planes.pre.0, &planes.pre.1, &planes.pre.2);
        }
        SearchAfterMeans { planes, distance, content, wants_patches }
    }

    /// Goes on with a search once it is known whether there are patches. Where
    /// they were not to be looked for, `patches` does not matter.
    pub fn search_with_patches(
        &self,
        enc: &mut GpuEncoder,
        before: SearchAfterMeans,
        patches: bool,
    ) -> (r: SearchAfterPatches)
        requires
            old(enc)@.wf(),
            self.wf(),
            self.countable(),
            self.holds_search(old(enc)@, before.planes),
        ensures
            r.follows(*self, before, patches),
            ({
                let (s1, blocks) = search_blocks_steps(old(enc)@, before.planes, r.afv);
                &&& r.blocks == blocks
                &&& r.first_pixels == s1.next()
                &&& final(enc)@ == s1.create(first_pixels(*self))
            }),
            final(enc)@.wf(),
            self.holds_search(final(enc)@, before.planes),
    {
        let planes: SearchPlanes = before.planes;
        let afv: bool = self.evaluates_afv(before.content.screenshot, patches);
        let reference: bool = self.uses_reference_multipliers(before.content.median);
        let gates: SearchGates = self.search_gates();
        let scales: SearchScales = self.search_scales(before.distance, reference);
        let blocks: Blocks = self.gather_search_blocks(enc, &planes, afv);
        let first: Handle = self.upload_first_pixels(enc);
        let jobs: Vec<CostJob> = cost_jobs(gates, scales, afv);
        SearchAfterPatches {
            planes,
            distance: before.distance,
            aq_field: before.content.aq_field,
            afv,
            gates,
            scales,
            model: search_cost_model(),
            blocks,
            first_pixels: first,
            jobs,
        }
    }

    /// Ends a search with the costs that came back, one list for each job: the
    /// transforms are chosen, and the means of the 8x8 blocks are recorded.
    /// Returns nothing, and records nothing, where the costs have not the
    /// lengths that the image calls for.
    pub fn search_with_costs(
        &self,
        enc: &mut GpuEncoder,
        before: &SearchAfterPatches,
        replies: Vec<Vec<Float32>>,
    ) -> (r: Option<StrategySearchPlan>)
        requires
            old(enc)@.wf(),
            self.wf(),
            self.countable(),
            self.holds_search(old(enc)@, before.planes),
            before.gates == gates_at(
                self.effort as int,
                self.padded_width as int,
                self.padded_height as int,
            ),
            replies@.len() == before.jobs@.len(),
        ensures
            ({
                let raw = collected(before.jobs@, lists_of(replies@));
                let xs8 = self.padded_width as int / 8;
                let ys8 = self.padded_height as int / 8;
                let (s1, dc) = dc_grids_steps(old(enc)@, before.planes, before.afv);
                match r {
                    None => {
                        &&& !costs_suit(*self, raw, before.gates, before.scales)
                        &&& final(enc)@ == old(enc)@
                    },
                    Some(plan) => {
                        &&& costs_suit(*self, raw, before.gates, before.scales)
                        &&& placements(plan.assignments@) == weighed(
                            raw,
                            before.gates,
                            before.scales,
                        ).chosen(before.gates, xs8, ys8)
                        &&& tiles(placements(plan.assignments@), xs8, ys8)
                        &&& final(enc)@ == s1
                        &&& (plan.dc_grid_x_gpu, plan.dc_grid_y_gpu, plan.dc_grid_b_gpu) == dc
                        &&& forall|run: Run| #[trigger]
                            grids_hold_means(run, old(enc)@, final(enc)@, plan)
                        &&& (plan.xyb_x_gpu, plan.xyb_y_gpu, plan.xyb_b_gpu) == before.planes.post
                        &&& (
                            plan.xyb_x_pre_gab_gpu,
                            plan.xyb_y_pre_gab_gpu,
                            plan.xyb_b_pre_gab_gpu,
                        ) == before.planes.pre
                        &&& plan.target_distance == before.distance
                        &&& plan.padded_width == self.padded_width
                        &&& plan.padded_height == self.padded_height
                        &&& plan.xyb_x@.len() == 0 && plan.xyb_y@.len() == 0
                            && plan.xyb_b@.len() == 0
                        &&& plan.dc_grid_x@.len() == 0 && plan.dc_grid_y@.len() == 0
                            && plan.dc_grid_b@.len() == 0
                        &&& plan.quant_field_float@.len() == 0
                        &&& plan.masking@.len() == 0
                    },
                }
            }),
            final(enc)@.wf(),
            self.holds_search(final(enc)@, before.planes),
    {
        let raw: RawCosts = collect_costs(before.jobs.as_slice(), replies);
        let n: usize = raw.dct8.len();
        if raw.afv.len() != 0 && (raw.afv.len() % 4 != 0 || raw.afv.len() / 4 != n) {
            return None;
        }
        let table: CostTable = weigh_costs(&raw, before.gates, before.scales);
        let xs8: usize = (self.padded_width / 8) as usize;
        let ys8: usize = (self.padded_height / 8) as usize;
        proof {
            law_gates_are_sound(
                self.effort as int,
                self.padded_width as int,
                self.padded_height as int,
            );
        }
        if !table.suits(before.gates, xs8, ys8) {
            return None;
        }
        let plan: StrategySearchPlan = self.finish_strategy_search_plan(
            enc,
            &before.planes,
            before.afv,
            table.choose_assignments(before.gates, xs8, ys8),
            before.distance,
        );
        Some(plan)
    }
}

} // verus!

//! What a search makes of the content of an image.

use crate::encode::adaptive_field;
use crate::float::Float32;
use crate::lossy_encoder::LossyEncoder;
use crate::median::{is_median, SCREENSHOT_MEDIAN_MASK_THRESHOLD};
use crate::plan::SearchPlanes;
use crate::quality::{float, qac_of_distance, ONE};
use crate::search::{
    law_no_bias, reference_branch, scales_at, ENTROPY_MUL_IDENTITY, REFERENCE_MUL_IDENTITY,
};
use crate::search_costs::{jobs_if, jobs_of, sub_block_jobs, CostJob};
use crate::search_flow::{SearchAfterMeans, SearchAfterPatches};
use vstd::prelude::*;

verus! {

/// Whether content with a median of mask means looks like a screenshot.
pub open spec fn above_threshold(median: Option<Float32>) -> bool {
    median matches Some(m) && float(SCREENSHOT_MEDIAN_MASK_THRESHOLD).less(m)
}

/// From the mask means of an image follow the scale for each of its blocks,
/// whether it looks like a screenshot, and whether patches are looked for: on
/// screenshots from an effort of seven, where they decide on the AFV transforms.
pub proof fn law_means_decide_what_is_looked_for(
    r: SearchAfterMeans,
    le: LossyEncoder,
    planes: SearchPlanes,
    means: Seq<Float32>,
    distance: Float32,
)
    requires
        r.follows(le, planes, means, distance),
    ensures
        r.content.aq_field@ == adaptive_field(means, distance),
        r.content.median matches Some(m) ==> is_median(means, m),
        means.len() > 0 ==> r.content.median is Some,
        r.content.screenshot <==> above_threshold(r.content.median),
        r.wants_patches <==> {
            &&& above_threshold(r.content.median)
            &&& le.effort >= 7
            &&& le.auto_evaluate_afv_on_screenshots
            &&& le.auto_skip_afv_when_patches
            &&& !le.evaluate_afv
        },
{
}

proof fn lemma_afv_job(r: SearchAfterPatches)
    requires
        r.jobs@ == jobs_of(r.gates, r.scales, r.afv),
    ensures
        r.jobs@.contains(CostJob::Afv) <==> r.afv,
{
    reveal(jobs_of);
    reveal(jobs_if);
    reveal(sub_block_jobs);
    let jobs = r.jobs@;
    let specs = crate::search::subblock_specs_of(r.gates, r.scales);
    let before = seq![CostJob::Dct8] + jobs_if(r.gates.dct16, seq![CostJob::Dct16x16])
        + sub_block_jobs(specs);
    if r.afv {
        assert(jobs[before.len() as int] == CostJob::Afv);
    } else {
        assert forall|j: int| 0 <= j < jobs.len() implies jobs[j] != CostJob::Afv by {}
    }
}

/// The AFV transforms are asked for where that was set, and on screenshots from
/// an effort of seven, unless patches were found where they were looked for.
pub proof fn law_content_decides_on_afv(
    r: SearchAfterPatches,
    le: LossyEncoder,
    before: SearchAfterMeans,
    patches: bool,
)
    requires
        r.follows(le, before, patches),
    ensures
        r.jobs@.contains(CostJob::Afv) <==> {
            ||| le.evaluate_afv
            ||| {
                &&& le.auto_evaluate_afv_on_screenshots
                &&& le.effort >= 7
                &&& before.content.screenshot
                &&& !(le.auto_skip_afv_when_patches && patches)
            }
        },
{
    lemma_afv_job(r);
}

/// Photos get the multipliers of the reference encoder where that was set, and
/// then no bias. All other content, and content of which nothing is known, gets
/// the encoder's own.
pub proof fn law_content_decides_on_the_multipliers(
    r: SearchAfterPatches,
    le: LossyEncoder,
    before: SearchAfterMeans,
    patches: bool,
)
    requires
        r.follows(le, before, patches),
    ensures
        ({
            let median = before.content.median;
            let photo = median is Some && !above_threshold(median);
            if le.auto_libjxl_entropy_mul_on_photos && photo {
                &&& r.scales.entropy_mul_identity == float(REFERENCE_MUL_IDENTITY)
                &&& r.scales.dist_bias == float(ONE)
            } else {
                r.scales.entropy_mul_identity == float(ENTROPY_MUL_IDENTITY)
            }
        }),
        r.scales.qac == qac_of_distance(before.distance),
        r.aq_field@ == before.content.aq_field@,
{
    if reference_branch(le, before.content.median) {
        law_no_bias(le, before.distance, true);
    }
}

/// Below an effort of five small transforms bear no penalty, at any distance.
pub proof fn law_low_effort_bears_no_penalty(
    le: LossyEncoder,
    distance: Float32,
    reference: bool,
    on: bool,
)
    requires
        le.effort < 5,
    ensures
        scales_at(
            LossyEncoder { enable_kavoid_entropy_of_transforms: on, ..le },
            distance,
            reference,
        ) == scales_at(le, distance, reference),
{
}

} // verus!

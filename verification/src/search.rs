//! The decisions of the strategy search: which transforms are considered, what
//! their costs are multiplied by, and which transforms the costs lead to.

use crate::encode::adaptive_field;
use crate::float::{
    difference, law_difference_of_less, law_zero, maximum, product, quotient, signed, sum,
    Float32,
};
use crate::lossy_encoder::LossyEncoder;
use crate::median::{is_median, looks_like_screenshot, median_of, screenshot_median};
use crate::pipeline::{gaborish_at, uses_gaborish};
use crate::quality::{
    block_means_to_qac_field, distance_to_qac, float, qac_of_distance, HALF, ONE, TWO,
};
use crate::strategy::{
    RAW_STRATEGY_DCT2X2, RAW_STRATEGY_DCT4X4, RAW_STRATEGY_DCT4X8, RAW_STRATEGY_DCT8X4,
    RAW_STRATEGY_IDENTITY,
};
use vstd::prelude::*;

verus! {

/// What the cost of DCT8 is lowered by, -0.4, over the distance plus
/// [`FAVOR_OFFSET`]; as a bit pattern, as are all constants here.
pub const K_FAVOR_2X2: u32 = 0xbecc_cccd;

/// 1.4.
pub const FAVOR_OFFSET: u32 = 0x3fb3_3333;

/// How fast the costs of the larger transforms rise with the distance: 0.3.
pub const BIAS_SLOPE: u32 = 0x3e99_999a;

/// How much faster the costs of the 32x32 transforms rise: 1.5.
pub const BIAS_FACTOR_32: u32 = 0x3fc0_0000;

/// The entropy multiplier of DCT4x4: 1.08.
pub const ENTROPY_MUL_DCT4X4: u32 = 0x3f8a_3d71;

/// The entropy multiplier of DCT2x2: 0.95.
pub const ENTROPY_MUL_DCT2X2: u32 = 0x3f73_3333;

/// The entropy multiplier of DCT4x8 and DCT8x4: 0.98.
pub const ENTROPY_MUL_DCT4X8: u32 = 0x3f7a_e148;

/// The entropy multiplier of the identity transform: 1.85.
pub const ENTROPY_MUL_IDENTITY: u32 = 0x3fec_cccd;

/// The reference encoder's multiplier of DCT4x8 and DCT8x4: 0.85931637.
pub const REFERENCE_MUL_DCT4X8: u32 = 0x3f5b_fc28;

/// The reference encoder's multiplier of the identity transform: 1.0428.
pub const REFERENCE_MUL_IDENTITY: u32 = 0x3f85_7a78;

/// The least entropy multiplier of DCT4x4, DCT4x8 and DCT8x4: 0.01.
pub const LEAST_ENTROPY_MUL: u32 = 0x3c23_d70a;

/// The distance up to which small transforms bear no penalty: 4.
pub const AVOID_FROM: u32 = 0x4080_0000;

/// The distance from which the penalty stays the same: 12.
pub const AVOID_TO: u32 = 0x4140_0000;

/// The span between the two: 8.
pub const AVOID_SPAN: u32 = 0x4100_0000;

/// What the distance is multiplied by for the quantization field where the
/// planes are not sharpened: 0.62.
pub const UNSHARPENED_SCALE: u32 = 0x3f1e_b852;

/// The entropy multiplier of DCT32x32: 3.
pub const ENTROPY_MUL_DCT32X32: u32 = 0x4040_0000;

/// The base of the multiplier of lost information in the cost model: 1.2.
pub const INFO_LOSS_BASE: u32 = 0x3f99_999a;

/// The base of the multiplier of zeros in the cost model: 9.308906.
pub const ZEROS_MUL_BASE: u32 = 0x4114_f147;

/// The base of the multiplier of coefficients in the cost model: 10.833273.
pub const COST_DELTA_BASE: u32 = 0x412d_5516;

/// What the cost model is set up with, next to the distance: its base
/// constants, and the factors by which the luminance correlates with the other
/// planes.
#[derive(Clone, Copy, Debug, PartialEq, Eq, Structural)]
pub struct CostModel {
    pub info_loss_base: Float32,
    pub zeros_mul_base: Float32,
    pub cost_delta_base: Float32,
    pub cmap_factor_x: i32,
    pub cmap_factor_b: i32,
}

/// The cost model of a search, which leaves the correlation of the planes
/// aside.
pub open spec fn search_model() -> CostModel {
    CostModel {
        info_loss_base: float(INFO_LOSS_BASE),
        zeros_mul_base: float(ZEROS_MUL_BASE),
        cost_delta_base: float(COST_DELTA_BASE),
        cmap_factor_x: 0,
        cmap_factor_b: 0,
    }
}

/// The cost model of a search. See [`search_model`].
pub fn search_cost_model() -> (r: CostModel)
    ensures
        r == search_model(),
{
    CostModel {
        info_loss_base: Float32::from_bits(INFO_LOSS_BASE),
        zeros_mul_base: Float32::from_bits(ZEROS_MUL_BASE),
        cost_delta_base: Float32::from_bits(COST_DELTA_BASE),
        cmap_factor_x: 0,
        cmap_factor_b: 0,
    }
}

/// Which transforms a search considers, next to DCT8.
#[derive(Clone, Copy, Debug, PartialEq, Eq, Structural)]
pub struct SearchGates {
    /// DCT16x16, DCT16x8 and DCT8x16.
    pub dct16: bool,
    /// DCT4x4, DCT2x2 and the identity transform.
    pub sub_blocks: bool,
    /// DCT4x8 and DCT8x4.
    pub dct4x8: bool,
    /// DCT32x16 and DCT16x32.
    pub rect32: bool,
    /// DCT32x32.
    pub dct32: bool,
    /// DCT64x64, DCT64x32 and DCT32x64.
    pub dct64: bool,
}

/// What a search at this effort considers in an image of this padded size.
/// DCT32 and larger need sizes that are multiples of theirs.
pub open spec fn gates_at(effort: int, padded_width: int, padded_height: int) -> SearchGates {
    let by32 = padded_width % 32 == 0 && padded_height % 32 == 0;
    let by64 = padded_width % 64 == 0 && padded_height % 64 == 0;
    SearchGates {
        dct16: effort >= 5,
        sub_blocks: effort >= 5,
        dct4x8: effort >= 6,
        rect32: effort >= 6 && by32,
        dct32: effort >= 7 && by32,
        dct64: effort >= 7 && by64,
    }
}

impl SearchGates {
    /// Whether whatever this search considers, the other considers too.
    pub open spec fn within(self, other: SearchGates) -> bool {
        &&& self.dct16 ==> other.dct16
        &&& self.sub_blocks ==> other.sub_blocks
        &&& self.dct4x8 ==> other.dct4x8
        &&& self.rect32 ==> other.rect32
        &&& self.dct32 ==> other.dct32
        &&& self.dct64 ==> other.dct64
    }
}

/// More effort never considers fewer transforms.
pub proof fn law_effort_only_adds(less: int, more: int, padded_width: int, padded_height: int)
    requires
        less <= more,
    ensures
        gates_at(less, padded_width, padded_height).within(
            gates_at(more, padded_width, padded_height),
        ),
{
}

/// What the mask means of an image say of it.
pub struct ContentReading {
    /// The scale for each block.
    pub aq_field: Vec<Float32>,
    /// The median of the means.
    pub median: Option<Float32>,
    /// Whether the content looks like a screenshot.
    pub screenshot: bool,
}

/// Whether the AFV transforms are evaluated because of the content alone.
pub open spec fn auto_afv(le: LossyEncoder, screenshot: bool) -> bool {
    le.auto_evaluate_afv_on_screenshots && le.effort >= 7 && screenshot
}

/// Whether patches have to be looked for to decide on the AFV transforms.
pub open spec fn patches_matter(le: LossyEncoder, screenshot: bool) -> bool {
    !le.evaluate_afv && auto_afv(le, screenshot) && le.auto_skip_afv_when_patches
}

/// Whether the AFV transforms are evaluated: where that was asked for, and on
/// screenshots without patches.
pub open spec fn afv_evaluated(le: LossyEncoder, screenshot: bool, patches: bool) -> bool {
    le.evaluate_afv || (auto_afv(le, screenshot) && !(patches_matter(le, screenshot) && patches))
}

/// Whether the content gets the multipliers of the reference encoder: photos
/// do, where that was asked for.
pub open spec fn reference_branch(le: LossyEncoder, median: Option<Float32>) -> bool {
    le.auto_libjxl_entropy_mul_on_photos && median is Some && !screenshot_median(median)
}

/// What was asked for explicitly is done whatever the content is like.
pub proof fn law_explicit_afv_wins(le: LossyEncoder, screenshot: bool, patches: bool)
    requires
        le.evaluate_afv,
    ensures
        afv_evaluated(le, screenshot, patches),
        !patches_matter(le, screenshot),
{
}

/// Patches change the decision on the AFV transforms only where they were to
/// be looked for.
pub proof fn law_patches_decide_only_when_asked(le: LossyEncoder, screenshot: bool)
    requires
        !patches_matter(le, screenshot),
    ensures
        afv_evaluated(le, screenshot, true) == afv_evaluated(le, screenshot, false),
{
}

/// On photos the AFV transforms are evaluated only where that was asked for.
pub proof fn law_photos_skip_afv(le: LossyEncoder, patches: bool)
    ensures
        afv_evaluated(le, false, patches) == le.evaluate_afv,
{
}

/// On screenshots the multipliers are the same whether those of the reference
/// encoder are used on photos or not.
pub proof fn law_screenshots_keep_their_multipliers(
    le: LossyEncoder,
    distance: Float32,
    median: Option<Float32>,
    on: bool,
)
    requires
        screenshot_median(median),
    ensures
        ({
            let other = LossyEncoder { auto_libjxl_entropy_mul_on_photos: on, ..le };
            scales_at(other, distance, reference_branch(other, median)) == scales_at(
                le,
                distance,
                reference_branch(le, median),
            )
        }),
{
}

/// What costs and entropies are multiplied by in a search.
#[derive(Clone, Copy, Debug, PartialEq, Eq, Structural)]
pub struct SearchScales {
    /// The scale of the quantization.
    pub qac: Float32,
    /// The multiplier of the costs of DCT8.
    pub mul_8x8: Float32,
    /// The multiplier of the costs of the transforms up to 16x16, DCT8 aside.
    pub dist_bias: Float32,
    /// The multiplier of the costs of the transforms up to 32x32.
    pub dist_bias_32: Float32,
    /// The multiplier of the costs of the transforms up to 64x64.
    pub dist_bias_64: Float32,
    /// The entropy multipliers of the transforms within 8x8 blocks.
    pub entropy_mul_dct4x4: Float32,
    pub entropy_mul_dct4x8: Float32,
    pub entropy_mul_identity: Float32,
    pub entropy_mul_dct2x2: Float32,
    /// The distance that the quantization field is computed for.
    pub distance_for_field: Float32,
}

/// How fast costs rise with the distance: not at all up to one, nor with the
/// multipliers of the reference encoder.
pub open spec fn bias_scale(distance: Float32, reference: bool) -> Float32 {
    if reference {
        float(0)
    } else {
        product(maximum(difference(distance, float(ONE)), float(0)), float(BIAS_SLOPE))
    }
}

/// What the penalty on small transforms is multiplied by at a distance.
pub open spec fn avoid_mul(distance: Float32) -> Float32 {
    if !float(AVOID_FROM).less(distance) {
        float(0)
    } else if distance.less(float(AVOID_TO)) {
        quotient(float(AVOID_SPAN), difference(distance, float(AVOID_FROM)))
    } else {
        float(ONE)
    }
}

/// What is added to the entropy multipliers of DCT4x4, DCT4x8 and DCT8x4.
pub open spec fn avoid_adjust(le: LossyEncoder, distance: Float32) -> Float32 {
    if le.enable_kavoid_entropy_of_transforms && le.effort >= 5 {
        product(float(HALF), avoid_mul(distance))
    } else {
        float(0)
    }
}

/// An entropy multiplier with a penalty added, but not below the least.
pub open spec fn adjusted(mul: Float32, adjust: Float32) -> Float32 {
    maximum(sum(mul, adjust), float(LEAST_ENTROPY_MUL))
}

/// The multipliers of a search at a distance.
pub open spec fn scales_at(le: LossyEncoder, distance: Float32, reference: bool) -> SearchScales {
    let bias = bias_scale(distance, reference);
    let adjust = avoid_adjust(le, distance);
    let one = float(ONE);
    SearchScales {
        qac: qac_of_distance(distance),
        mul_8x8: sum(one, quotient(float(K_FAVOR_2X2), sum(distance, float(FAVOR_OFFSET)))),
        dist_bias: sum(one, bias),
        dist_bias_32: sum(one, product(bias, float(BIAS_FACTOR_32))),
        dist_bias_64: sum(one, product(bias, float(TWO))),
        entropy_mul_dct4x4: adjusted(float(ENTROPY_MUL_DCT4X4), adjust),
        entropy_mul_dct4x8: adjusted(
            if reference {
                float(REFERENCE_MUL_DCT4X8)
            } else {
                float(ENTROPY_MUL_DCT4X8)
            },
            adjust,
        ),
        entropy_mul_identity: if reference {
            float(REFERENCE_MUL_IDENTITY)
        } else {
            float(ENTROPY_MUL_IDENTITY)
        },
        entropy_mul_dct2x2: float(ENTROPY_MUL_DCT2X2),
        distance_for_field: if uses_gaborish(distance) {
            distance
        } else {
            product(distance, float(UNSHARPENED_SCALE))
        },
    }
}

/// A transform within 8x8 blocks whose costs are to be computed, and its
/// entropy multiplier.
#[derive(Clone, Copy, Debug, PartialEq, Eq, Structural)]
pub struct SubblockStratSpec {
    pub raw_strategy: u8,
    pub entropy_mul: Float32,
}

/// The transforms within 8x8 blocks that a search considers.
pub open spec fn subblock_specs_of(gates: SearchGates, scales: SearchScales) -> Seq<
    SubblockStratSpec,
> {
    let first = if gates.sub_blocks {
        seq![
            SubblockStratSpec {
                raw_strategy: RAW_STRATEGY_DCT4X4,
                entropy_mul: scales.entropy_mul_dct4x4,
            },
        ]
    } else {
        Seq::empty()
    };
    let second = if gates.dct4x8 {
        seq![
            SubblockStratSpec {
                raw_strategy: RAW_STRATEGY_DCT4X8,
                entropy_mul: scales.entropy_mul_dct4x8,
            },
            SubblockStratSpec {
                raw_strategy: RAW_STRATEGY_DCT8X4,
                entropy_mul: scales.entropy_mul_dct4x8,
            },
        ]
    } else {
        Seq::empty()
    };
    let third = if gates.sub_blocks {
        seq![
            SubblockStratSpec {
                raw_strategy: RAW_STRATEGY_IDENTITY,
                entropy_mul: scales.entropy_mul_identity,
            },
            SubblockStratSpec {
                raw_strategy: RAW_STRATEGY_DCT2X2,
                entropy_mul: scales.entropy_mul_dct2x2,
            },
        ]
    } else {
        Seq::empty()
    };
    first + second + third
}

fn avoidance(distance: Float32) -> (r: Float32)
    ensures
        r == avoid_mul(distance),
{
    if !Float32::from_bits(AVOID_FROM).lt(distance) {
        Float32::from_bits(0)
    } else if distance.lt(Float32::from_bits(AVOID_TO)) {
        Float32::from_bits(AVOID_SPAN).over(distance.minus(Float32::from_bits(AVOID_FROM)))
    } else {
        Float32::from_bits(ONE)
    }
}

fn adjust(mul: u32, adjustment: Float32) -> (r: Float32)
    ensures
        r == adjusted(float(mul), adjustment),
{
    Float32::from_bits(mul).plus(adjustment).max(Float32::from_bits(LEAST_ENTROPY_MUL))
}

impl LossyEncoder {
    /// Which transforms the search considers.
    pub fn search_gates(&self) -> (r: SearchGates)
        ensures
            r == gates_at(
                self.effort as int,
                self.padded_width as int,
                self.padded_height as int,
            ),
    {
        let by32: bool = self.padded_width % 32 == 0 && self.padded_height % 32 == 0;
        let by64: bool = self.padded_width % 64 == 0 && self.padded_height % 64 == 0;
        SearchGates {
            dct16: self.effort >= 5,
            sub_blocks: self.effort >= 5,
            dct4x8: self.effort >= 6,
            rect32: self.effort >= 6 && by32,
            dct32: self.effort >= 7 && by32,
            dct64: self.effort >= 7 && by64,
        }
    }

    /// The scale for each block of an image with these mask means.
    pub fn compute_aq_field(&self, block_means: &[Float32], distance: Float32) -> (r: Vec<Float32>)
        ensures
            r@ == adaptive_field(block_means@, distance),
    {
        let r: Vec<Float32> = block_means_to_qac_field(block_means, distance);
        assert(r@ =~= adaptive_field(block_means@, distance));
        r
    }

    /// What the mask means of an image say of it at a distance: the scale for
    /// each block, the median, and whether it looks like a screenshot.
    pub fn read_content(&self, block_means: &[Float32], distance: Float32) -> (r: ContentReading)
        ensures
            r.aq_field@ == adaptive_field(block_means@, distance),
            block_means@.len() == 0 <==> r.median is None,
            r.median matches Some(m) ==> is_median(block_means@, m),
            r.screenshot == screenshot_median(r.median),
    {
        let aq_field: Vec<Float32> = self.compute_aq_field(block_means, distance);
        let median: Option<Float32> = median_of(block_means);
        let screenshot: bool = looks_like_screenshot(median);
        ContentReading { aq_field, median, screenshot }
    }

    /// Whether patches have to be looked for, in the planes before sharpening,
    /// to decide on the AFV transforms.
    pub fn wants_patch_check(&self, screenshot: bool) -> (r: bool)
        ensures
            r == patches_matter(*self, screenshot),
    {
        !self.evaluate_afv && self.auto_evaluate_afv_on_screenshots && self.effort >= 7
            && screenshot && self.auto_skip_afv_when_patches
    }

    /// Whether the AFV transforms are evaluated; `patches` says whether patches
    /// were found, where they were looked for.
    pub fn evaluates_afv(&self, screenshot: bool, patches: bool) -> (r: bool)
        ensures
            r == afv_evaluated(*self, screenshot, patches),
    {
        if self.evaluate_afv {
            true
        } else {
            self.auto_evaluate_afv_on_screenshots && self.effort >= 7 && screenshot && !(
            self.wants_patch_check(screenshot) && patches)
        }
    }

    /// Whether content with this median gets the multipliers of the reference
    /// encoder.
    pub fn uses_reference_multipliers(&self, median: Option<Float32>) -> (r: bool)
        ensures
            r == reference_branch(*self, median),
    {
        self.auto_libjxl_entropy_mul_on_photos && median.is_some() && !looks_like_screenshot(median)
    }

    /// What costs and entropies are multiplied by in a search at a distance.
    pub fn search_scales(&self, distance: Float32, reference: bool) -> (r: SearchScales)
        ensures
            r == scales_at(*self, distance, reference),
    {
        let one: Float32 = Float32::from_bits(ONE);
        let zero: Float32 = Float32::from_bits(0);
        let bias: Float32 = if reference {
            zero
        } else {
            distance.minus(one).max(zero).times(Float32::from_bits(BIAS_SLOPE))
        };
        let adjustment: Float32 = if self.enable_kavoid_entropy_of_transforms && self.effort >= 5 {
            Float32::from_bits(HALF).times(avoidance(distance))
        } else {
            zero
        };
        SearchScales {
            qac: distance_to_qac(distance),
            mul_8x8: one.plus(
                Float32::from_bits(K_FAVOR_2X2).over(
                    distance.plus(Float32::from_bits(FAVOR_OFFSET)),
                ),
            ),
            dist_bias: one.plus(bias),
            dist_bias_32: one.plus(bias.times(Float32::from_bits(BIAS_FACTOR_32))),
            dist_bias_64: one.plus(bias.times(Float32::from_bits(TWO))),
            entropy_mul_dct4x4: adjust(ENTROPY_MUL_DCT4X4, adjustment),
            entropy_mul_dct4x8: adjust(
                if reference {
                    REFERENCE_MUL_DCT4X8
                } else {
                    ENTROPY_MUL_DCT4X8
                },
                adjustment,
            ),
            entropy_mul_identity: Float32::from_bits(
                if reference {
                    REFERENCE_MUL_IDENTITY
                } else {
                    ENTROPY_MUL_IDENTITY
                },
            ),
            entropy_mul_dct2x2: Float32::from_bits(ENTROPY_MUL_DCT2X2),
            distance_for_field: if gaborish_at(distance) {
                distance
            } else {
                distance.times(Float32::from_bits(UNSHARPENED_SCALE))
            },
        }
    }
}

/// The transforms within 8x8 blocks whose costs a search needs, in the order
/// in which the costs come back.
pub fn subblock_specs(gates: SearchGates, scales: SearchScales) -> (r: Vec<SubblockStratSpec>)
    ensures
        r@ == subblock_specs_of(gates, scales),
{
    let mut specs: Vec<SubblockStratSpec> = Vec::new();
    if gates.sub_blocks {
        specs.push(
            SubblockStratSpec {
                raw_strategy: RAW_STRATEGY_DCT4X4,
                entropy_mul: scales.entropy_mul_dct4x4,
            },
        );
    }
    if gates.dct4x8 {
        specs.push(
            SubblockStratSpec {
                raw_strategy: RAW_STRATEGY_DCT4X8,
                entropy_mul: scales.entropy_mul_dct4x8,
            },
        );
        specs.push(
            SubblockStratSpec {
                raw_strategy: RAW_STRATEGY_DCT8X4,
                entropy_mul: scales.entropy_mul_dct4x8,
            },
        );
    }
    if gates.sub_blocks {
        specs.push(
            SubblockStratSpec {
                raw_strategy: RAW_STRATEGY_IDENTITY,
                entropy_mul: scales.entropy_mul_identity,
            },
        );
        specs.push(
            SubblockStratSpec {
                raw_strategy: RAW_STRATEGY_DCT2X2,
                entropy_mul: scales.entropy_mul_dct2x2,
            },
        );
    }
    assert(specs@ =~= subblock_specs_of(gates, scales));
    specs
}

/// The penalty on small transforms changes nothing up to a distance of four.
pub proof fn law_no_penalty_up_to_four(
    le: LossyEncoder,
    distance: Float32,
    reference: bool,
    on: bool,
)
    requires
        !float(AVOID_FROM).less(distance),
    ensures
        scales_at(
            LossyEncoder { enable_kavoid_entropy_of_transforms: on, ..le },
            distance,
            reference,
        ) == scales_at(le, distance, reference),
{
    assert(float(HALF).finite() && !float(HALF).negative());
    assert(float(0) == signed(false, 0));
    law_zero(float(HALF));
    assert(product(float(HALF), float(0)) == float(0));
}

/// Up to a distance of one, and with the multipliers of the reference encoder
/// at any distance, the costs of the larger transforms stay as they are.
pub proof fn law_no_bias(le: LossyEncoder, distance: Float32, reference: bool)
    requires
        reference || (!distance.nan() && !float(ONE).less(distance)),
    ensures
        scales_at(le, distance, reference).dist_bias == float(ONE),
        scales_at(le, distance, reference).dist_bias_32 == float(ONE),
        scales_at(le, distance, reference).dist_bias_64 == float(ONE),
{
    let zero = float(0);
    assert(zero == signed(false, 0));
    assert(float(ONE).finite() && float(ONE).magnitude() > 0);
    law_zero(float(ONE));
    assert(float(BIAS_SLOPE).finite() && !float(BIAS_SLOPE).negative());
    law_zero(float(BIAS_SLOPE));
    assert(float(BIAS_FACTOR_32).finite() && !float(BIAS_FACTOR_32).negative());
    law_zero(float(BIAS_FACTOR_32));
    assert(float(TWO).finite() && !float(TWO).negative());
    law_zero(float(TWO));
    if !reference {
        let d = difference(distance, float(ONE));
        law_difference_of_less(distance, float(ONE));
        assert(maximum(d, zero) == zero);
    }
}

} // verus!

//! What the numbers of the encoder are, in decimals.

use crate::launch::fuzzy_erosion::{K_MUL_ADD, K_MUL_BASE, K_TOTAL};
use crate::lossy_encoder::{THRESHOLDS_CHROMA, THRESHOLDS_LUMA};
use crate::mask::OUTSIDE_MASK;
use crate::median::SCREENSHOT_MEDIAN_MASK_THRESHOLD;
use crate::persistent::{channel_bias_of, BIAS_B, BIAS_X, BIAS_Y};
use crate::pipeline::{EPF_SIGMA_SCALE, EPF_STRENGTH_SCALE};
use crate::quality::{FIFTY, HALF, HUNDRED, K_AC_QUANT, MIN_DISTANCE, ONE, TWO};
use crate::search::{
    AVOID_FROM, AVOID_SPAN, AVOID_TO, BIAS_FACTOR_32, BIAS_SLOPE, COST_DELTA_BASE,
    ENTROPY_MUL_DCT2X2, ENTROPY_MUL_DCT32X32, ENTROPY_MUL_DCT4X4, ENTROPY_MUL_DCT4X8,
    ENTROPY_MUL_IDENTITY, FAVOR_OFFSET, INFO_LOSS_BASE, K_FAVOR_2X2, LEAST_ENTROPY_MUL,
    REFERENCE_MUL_DCT4X8, REFERENCE_MUL_IDENTITY, UNSHARPENED_SCALE, ZEROS_MUL_BASE,
};
use crate::strategy::{
    RAW_STRATEGY_AFV0, RAW_STRATEGY_AFV1, RAW_STRATEGY_AFV2, RAW_STRATEGY_AFV3, RAW_STRATEGY_DCT,
    RAW_STRATEGY_DCT16X16, RAW_STRATEGY_DCT16X32, RAW_STRATEGY_DCT16X8, RAW_STRATEGY_DCT2X2,
    RAW_STRATEGY_DCT32X16, RAW_STRATEGY_DCT32X32, RAW_STRATEGY_DCT32X64, RAW_STRATEGY_DCT4X4,
    RAW_STRATEGY_DCT4X8, RAW_STRATEGY_DCT64X32, RAW_STRATEGY_DCT64X64, RAW_STRATEGY_DCT8X16,
    RAW_STRATEGY_DCT8X4, RAW_STRATEGY_IDENTITY,
};
use vstd::prelude::*;

verus! {

/// A power of two.
pub open spec fn two_to(n: int) -> int
    decreases n,
{
    if n <= 0 {
        1
    } else {
        2 * two_to(n - 1)
    }
}

/// Whether the positive number with a bit pattern of single precision, below
/// 2^23, is the nearest there is to a fraction: no further from it than half a
/// unit of the last of its 24 binary digits.
pub open spec fn is_nearest(bits: u32, numerator: int, denominator: int) -> bool {
    let digits = bits as int % 0x80_0000 + 0x80_0000;
    let scale = two_to(150 - bits as int / 0x80_0000);
    &&& 0 < bits as int / 0x80_0000 < 150
    &&& 2 * (denominator * digits - numerator * scale) <= denominator
    &&& 2 * (numerator * scale - denominator * digits) <= denominator
}

/// The same of a negative number.
pub open spec fn is_nearest_minus(bits: u32, numerator: int, denominator: int) -> bool {
    bits >= 0x8000_0000 && is_nearest((bits - 0x8000_0000) as u32, numerator, denominator)
}

/// The scale of the edge-preserving filter is 1.65, and that of its strengths
/// 0.01; each as the nearest number of single precision.
pub proof fn law_filter_numbers()
    ensures
        is_nearest(EPF_SIGMA_SCALE, 165, 100),
        is_nearest(EPF_STRENGTH_SCALE, 1, 100),
{
    reveal_with_fuel(two_to, 40);
}

/// A first coefficient is rounded up from 0.58 in the channels X and B, and from
/// 0.56 in the channel Y; all others from 0.62.
pub proof fn law_threshold_numbers()
    ensures
        is_nearest(THRESHOLDS_CHROMA[0], 58, 100),
        is_nearest(THRESHOLDS_CHROMA[1], 62, 100),
        is_nearest(THRESHOLDS_CHROMA[2], 62, 100),
        is_nearest(THRESHOLDS_CHROMA[3], 62, 100),
        is_nearest(THRESHOLDS_LUMA[0], 56, 100),
        is_nearest(THRESHOLDS_LUMA[1], 62, 100),
        is_nearest(THRESHOLDS_LUMA[2], 62, 100),
        is_nearest(THRESHOLDS_LUMA[3], 62, 100),
{
    reveal_with_fuel(two_to, 40);
}

/// The numbers of the scales and distances.
pub proof fn law_quality_numbers()
    ensures
        is_nearest(K_AC_QUANT, 765, 1000),
        is_nearest(MIN_DISTANCE, 1, 1000),
        is_nearest(HALF, 1, 2),
        is_nearest(ONE, 1, 1),
        is_nearest(TWO, 2, 1),
        is_nearest(FIFTY, 50, 1),
        is_nearest(HUNDRED, 100, 1),
{
    reveal_with_fuel(two_to, 40);
}

/// What small coefficients are multiplied by in each channel.
pub proof fn law_bias_numbers()
    ensures
        is_nearest(BIAS_X, 94534993, 100000000),
        is_nearest(BIAS_Y, 9299455, 10000000),
        is_nearest(BIAS_B, 9500649, 10000000),
        channel_bias_of(0).bits == BIAS_X,
        channel_bias_of(1).bits == BIAS_Y,
        channel_bias_of(2).bits == BIAS_B,
{
    reveal_with_fuel(two_to, 40);
}

/// The mask outside an image, and the median from which content looks like a
/// screenshot.
pub proof fn law_mask_numbers()
    ensures
        is_nearest(OUTSIDE_MASK, 1, 1),
        is_nearest(SCREENSHOT_MEDIAN_MASK_THRESHOLD, 95, 1),
{
    reveal_with_fuel(two_to, 40);
}

/// The numbers of the cost model.
pub proof fn law_cost_numbers()
    ensures
        is_nearest(FAVOR_OFFSET, 14, 10),
        is_nearest(BIAS_SLOPE, 3, 10),
        is_nearest(BIAS_FACTOR_32, 15, 10),
        is_nearest(ENTROPY_MUL_DCT4X4, 108, 100),
        is_nearest(ENTROPY_MUL_DCT2X2, 95, 100),
        is_nearest(ENTROPY_MUL_DCT4X8, 98, 100),
        is_nearest(ENTROPY_MUL_IDENTITY, 185, 100),
        is_nearest(ENTROPY_MUL_DCT32X32, 3, 1),
        is_nearest(REFERENCE_MUL_DCT4X8, 85931637, 100000000),
        is_nearest(REFERENCE_MUL_IDENTITY, 10428, 10000),
        is_nearest(LEAST_ENTROPY_MUL, 1, 100),
        is_nearest(AVOID_FROM, 4, 1),
        is_nearest(AVOID_TO, 12, 1),
        is_nearest(AVOID_SPAN, 8, 1),
        is_nearest(UNSHARPENED_SCALE, 62, 100),
        is_nearest(INFO_LOSS_BASE, 12, 10),
        is_nearest(ZEROS_MUL_BASE, 9308906, 1000000),
        is_nearest(COST_DELTA_BASE, 10833273, 1000000),
        is_nearest_minus(K_FAVOR_2X2, 4, 10),
{
    reveal_with_fuel(two_to, 40);
}

/// The numbers of the erosion weights.
pub proof fn law_erosion_numbers()
    ensures
        is_nearest(K_MUL_BASE[0], 125, 1000),
        is_nearest(K_MUL_BASE[1], 1, 10),
        is_nearest(K_MUL_BASE[2], 9, 100),
        is_nearest(K_MUL_BASE[3], 6, 100),
        is_nearest_minus(K_MUL_ADD[1], 1, 10),
        is_nearest_minus(K_MUL_ADD[2], 9, 100),
        is_nearest_minus(K_MUL_ADD[3], 6, 100),
        is_nearest(K_TOTAL, 29959705, 100000000),
        K_MUL_ADD[0] == 0,
{
    reveal_with_fuel(two_to, 40);
}

/// The codes by which a JPEG XL file names the transforms.
pub proof fn law_codes_of_transforms()
    ensures
        RAW_STRATEGY_DCT == 0,
        RAW_STRATEGY_DCT16X8 == 1,
        RAW_STRATEGY_DCT8X16 == 2,
        RAW_STRATEGY_DCT16X16 == 3,
        RAW_STRATEGY_DCT32X32 == 4,
        RAW_STRATEGY_DCT4X8 == 5,
        RAW_STRATEGY_DCT8X4 == 6,
        RAW_STRATEGY_DCT4X4 == 7,
        RAW_STRATEGY_IDENTITY == 8,
        RAW_STRATEGY_DCT2X2 == 9,
        RAW_STRATEGY_DCT32X16 == 10,
        RAW_STRATEGY_DCT16X32 == 11,
        RAW_STRATEGY_AFV0 == 12,
        RAW_STRATEGY_AFV1 == 13,
        RAW_STRATEGY_AFV2 == 14,
        RAW_STRATEGY_AFV3 == 15,
        RAW_STRATEGY_DCT64X64 == 16,
        RAW_STRATEGY_DCT64X32 == 17,
        RAW_STRATEGY_DCT32X64 == 18,
{
}

} // verus!

//! Fuzzy erosion: its weights and its launch.

use crate::device::{
    area, spread, spread_over, word_array, words, Handle, Kernel, Launch, LaunchSpec, Scalar,
};
use crate::float::{difference, product, quotient, sum, Float32};
use crate::quality::{float, HALF, TWO};
use vstd::prelude::*;

verus! {

/// The launch that [`fuzzy_erosion`] describes.
pub open spec fn fuzzy_erosion_launch(
    src: Handle,
    output: Handle,
    src_w: u32,
    src_h: u32,
    from_x0: u32,
    from_y0: u32,
    out_w: u32,
    out_h: u32,
    k_mul: [Float32; 4],
) -> LaunchSpec {
    LaunchSpec {
        kernel: Kernel::FuzzyErosion,
        grid: spread(out_w * out_h, 256),
        arrays: seq![
            words(src, src_w * src_h),
            words(output, out_w * out_h),
        ],
        scalars: seq![
            Scalar::U32(src_w),
            Scalar::U32(src_h),
            Scalar::U32(from_x0),
            Scalar::U32(from_y0),
            Scalar::U32(out_w),
            Scalar::U32(out_h),
            Scalar::F32(k_mul[0]),
            Scalar::F32(k_mul[1]),
            Scalar::F32(k_mul[2]),
            Scalar::F32(k_mul[3]),
        ],
    }
}

/// Fuzzy erosion with a downsampling by two.
pub fn fuzzy_erosion(
    src: Handle,
    output: Handle,
    src_w: u32,
    src_h: u32,
    from_x0: u32,
    from_y0: u32,
    out_w: u32,
    out_h: u32,
    k_mul: [Float32; 4],
) -> (launch: Launch)
    requires
        src_w * src_h <= u32::MAX,
        out_w * out_h <= u32::MAX,
    ensures
        launch@ == fuzzy_erosion_launch(
            src,
            output,
            src_w,
            src_h,
            from_x0,
            from_y0,
            out_w,
            out_h,
            k_mul,
        ),
{
    let launch: Launch = Launch {
        kernel: Kernel::FuzzyErosion,
        grid: spread_over(out_w * out_h, 256),
        arrays: vec![
            word_array(src, area(src_w, src_h)),
            word_array(output, area(out_w, out_h)),
        ],
        scalars: vec![
            Scalar::U32(src_w),
            Scalar::U32(src_h),
            Scalar::U32(from_x0),
            Scalar::U32(from_y0),
            Scalar::U32(out_w),
            Scalar::U32(out_h),
            Scalar::F32(k_mul[0]),
            Scalar::F32(k_mul[1]),
            Scalar::F32(k_mul[2]),
            Scalar::F32(k_mul[3]),
        ],
    };
    assert(
        launch@.arrays =~= fuzzy_erosion_launch(
            src,
            output,
            src_w,
            src_h,
            from_x0,
            from_y0,
            out_w,
            out_h,
            k_mul,
        ).arrays
    );
    assert(
        launch@.scalars =~= fuzzy_erosion_launch(
            src,
            output,
            src_w,
            src_h,
            from_x0,
            from_y0,
            out_w,
            out_h,
            k_mul,
        ).scalars
    );
    launch
}

/// The weights at target zero before they are scaled: 0.125, 0.1, 0.09 and
/// 0.06, as bit patterns.
pub const K_MUL_BASE: [u32; 4] = [0x3e00_0000, 0x3dcc_cccd, 0x3db8_51ec, 0x3d75_c28f];

/// What is added to the weights as the target falls from two to zero: 0, -0.1,
/// -0.09 and -0.06, as bit patterns.
pub const K_MUL_ADD: [u32; 4] = [0x0000_0000, 0xbdcc_cccd, 0xbdb8_51ec, 0xbd75_c28f];

/// What the weights add up to, 0.29959705, as a bit pattern.
pub const K_TOTAL: u32 = 0x3e99_64c9;

/// How far the target lies below two, from zero at two to one at zero.
pub open spec fn below_two(butteraugli_target: Float32) -> Float32 {
    if butteraugli_target.less(float(TWO)) {
        product(difference(float(TWO), butteraugli_target), float(HALF))
    } else {
        float(0)
    }
}

/// A weight before it is scaled.
pub open spec fn raw_weight(butteraugli_target: Float32, i: int) -> Float32 {
    sum(float(K_MUL_BASE[i]), product(below_two(butteraugli_target), float(K_MUL_ADD[i])))
}

/// The sum of the first `n` weights before they are scaled.
pub open spec fn raw_weight_sum(butteraugli_target: Float32, n: int) -> Float32
    decreases n,
{
    if n <= 0 {
        float(0)
    } else {
        sum(raw_weight_sum(butteraugli_target, n - 1), raw_weight(butteraugli_target, n - 1))
    }
}

/// The four weights of fuzzy erosion for a target distance, scaled so that
/// they add up to [`K_TOTAL`].
pub fn fuzzy_erosion_kmul(butteraugli_target: Float32) -> (k: [Float32; 4])
    ensures
        forall|i: int|
            0 <= i < 4 ==> #[trigger] k@[i] == product(
                raw_weight(butteraugli_target, i),
                quotient(float(K_TOTAL), raw_weight_sum(butteraugli_target, 4)),
            ),
{
    let two: Float32 = Float32::from_bits(TWO);
    let mul: Float32 = if butteraugli_target.lt(two) {
        two.minus(butteraugli_target).times(Float32::from_bits(HALF))
    } else {
        Float32::from_bits(0)
    };
    let zero: Float32 = Float32::from_bits(0);
    let mut k: [Float32; 4] = [zero, zero, zero, zero];
    let mut norm_sum: Float32 = zero;
    let mut i: usize = 0;
    while i < 4
        invariant
            i <= 4,
            mul == below_two(butteraugli_target),
            norm_sum == raw_weight_sum(butteraugli_target, i as int),
            forall|j: int| 0 <= j < i ==> #[trigger] k@[j] == raw_weight(butteraugli_target, j),
        decreases 4 - i,
    {
        let base: Float32 = Float32::from_bits(K_MUL_BASE[i]);
        let step: Float32 = Float32::from_bits(K_MUL_ADD[i]);
        let w: Float32 = base.plus(mul.times(step));
        k[i] = w;
        norm_sum = norm_sum.plus(w);
        i = i + 1;
    }
    let scale: Float32 = Float32::from_bits(K_TOTAL).over(norm_sum);
    let mut j: usize = 0;
    while j < 4
        invariant
            j <= 4,
            scale == quotient(float(K_TOTAL), raw_weight_sum(butteraugli_target, 4)),
            forall|m: int|
                0 <= m < j ==> #[trigger] k@[m] == product(
                    raw_weight(butteraugli_target, m),
                    scale,
                ),
            forall|m: int| j <= m < 4 ==> #[trigger] k@[m] == raw_weight(butteraugli_target, m),
        decreases 4 - j,
    {
        let w: Float32 = k[j];
        k[j] = w.times(scale);
        j = j + 1;
    }
    k
}

} // verus!

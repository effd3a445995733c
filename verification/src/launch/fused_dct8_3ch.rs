//! Launch for transform and quantization of three channels at once.

use crate::device::{
    spread, spread_over, word_array, words, Handle, Kernel, Launch, LaunchSpec, Scalar,
};
use vstd::prelude::*;

verus! {

/// The launch that [`fused_dct8_3ch`] describes.
pub open spec fn fused_dct8_3ch_launch(
    plane_x: Handle,
    plane_y: Handle,
    plane_b: Handle,
    weights_x: Handle,
    weights_y: Handle,
    weights_b: Handle,
    qac_qm_x: Handle,
    qac_qm_y: Handle,
    qac_qm_b: Handle,
    x_factor_per_block: Handle,
    b_factor_per_block: Handle,
    thresholds_x: Handle,
    thresholds_y: Handle,
    thresholds_b: Handle,
    quant_ac_x: Handle,
    quant_ac_y: Handle,
    quant_ac_b: Handle,
    nzeros_x: Handle,
    nzeros_y: Handle,
    nzeros_b: Handle,
    plane_n: u64,
    n_blocks: u32,
    plane_stride: u32,
    xsize_blocks: u32,
) -> LaunchSpec {
    LaunchSpec {
        kernel: Kernel::FusedDct83ch,
        grid: spread(n_blocks as int, 64),
        arrays: seq![
            words(plane_x, plane_n as int),
            words(plane_y, plane_n as int),
            words(plane_b, plane_n as int),
            words(weights_x, 64),
            words(weights_y, 64),
            words(weights_b, 64),
            words(qac_qm_x, n_blocks as int),
            words(qac_qm_y, n_blocks as int),
            words(qac_qm_b, n_blocks as int),
            words(x_factor_per_block, n_blocks as int),
            words(b_factor_per_block, n_blocks as int),
            words(thresholds_x, 4),
            words(thresholds_y, 4),
            words(thresholds_b, 4),
            words(quant_ac_x, n_blocks * 64),
            words(quant_ac_y, n_blocks * 64),
            words(quant_ac_b, n_blocks * 64),
            words(nzeros_x, n_blocks as int),
            words(nzeros_y, n_blocks as int),
            words(nzeros_b, n_blocks as int),
        ],
        scalars: seq![
            Scalar::U32(plane_stride),
            Scalar::U32(xsize_blocks),
        ],
    }
}

/// Transforms and quantizes the 8x8 blocks of three planes, with chroma from
/// luma, and counts the nonzero coefficients.
pub fn fused_dct8_3ch(
    plane_x: Handle,
    plane_y: Handle,
    plane_b: Handle,
    weights_x: Handle,
    weights_y: Handle,
    weights_b: Handle,
    qac_qm_x: Handle,
    qac_qm_y: Handle,
    qac_qm_b: Handle,
    x_factor_per_block: Handle,
    b_factor_per_block: Handle,
    thresholds_x: Handle,
    thresholds_y: Handle,
    thresholds_b: Handle,
    quant_ac_x: Handle,
    quant_ac_y: Handle,
    quant_ac_b: Handle,
    nzeros_x: Handle,
    nzeros_y: Handle,
    nzeros_b: Handle,
    plane_n: u64,
    n_blocks: u32,
    plane_stride: u32,
    xsize_blocks: u32,
) -> (launch: Launch)
    ensures
        launch@ == fused_dct8_3ch_launch(
            plane_x,
            plane_y,
            plane_b,
            weights_x,
            weights_y,
            weights_b,
            qac_qm_x,
            qac_qm_y,
            qac_qm_b,
            x_factor_per_block,
            b_factor_per_block,
            thresholds_x,
            thresholds_y,
            thresholds_b,
            quant_ac_x,
            quant_ac_y,
            quant_ac_b,
            nzeros_x,
            nzeros_y,
            nzeros_b,
            plane_n,
            n_blocks,
            plane_stride,
            xsize_blocks,
        ),
{
    let launch: Launch = Launch {
        kernel: Kernel::FusedDct83ch,
        grid: spread_over(n_blocks, 64),
        arrays: vec![
            word_array(plane_x, plane_n),
            word_array(plane_y, plane_n),
            word_array(plane_b, plane_n),
            word_array(weights_x, 64),
            word_array(weights_y, 64),
            word_array(weights_b, 64),
            word_array(qac_qm_x, n_blocks as u64),
            word_array(qac_qm_y, n_blocks as u64),
            word_array(qac_qm_b, n_blocks as u64),
            word_array(x_factor_per_block, n_blocks as u64),
            word_array(b_factor_per_block, n_blocks as u64),
            word_array(thresholds_x, 4),
            word_array(thresholds_y, 4),
            word_array(thresholds_b, 4),
            word_array(quant_ac_x, n_blocks as u64 * 64),
            word_array(quant_ac_y, n_blocks as u64 * 64),
            word_array(quant_ac_b, n_blocks as u64 * 64),
            word_array(nzeros_x, n_blocks as u64),
            word_array(nzeros_y, n_blocks as u64),
            word_array(nzeros_b, n_blocks as u64),
        ],
        scalars: vec![
            Scalar::U32(plane_stride),
            Scalar::U32(xsize_blocks),
        ],
    };
    assert(
        launch@.arrays =~= fused_dct8_3ch_launch(
            plane_x,
            plane_y,
            plane_b,
            weights_x,
            weights_y,
            weights_b,
            qac_qm_x,
            qac_qm_y,
            qac_qm_b,
            x_factor_per_block,
            b_factor_per_block,
            thresholds_x,
            thresholds_y,
            thresholds_b,
            quant_ac_x,
            quant_ac_y,
            quant_ac_b,
            nzeros_x,
            nzeros_y,
            nzeros_b,
            plane_n,
            n_blocks,
            plane_stride,
            xsize_blocks,
        ).arrays
    );
    assert(
        launch@.scalars =~= fused_dct8_3ch_launch(
            plane_x,
            plane_y,
            plane_b,
            weights_x,
            weights_y,
            weights_b,
            qac_qm_x,
            qac_qm_y,
            qac_qm_b,
            x_factor_per_block,
            b_factor_per_block,
            thresholds_x,
            thresholds_y,
            thresholds_b,
            quant_ac_x,
            quant_ac_y,
            quant_ac_b,
            nzeros_x,
            nzeros_y,
            nzeros_b,
            plane_n,
            n_blocks,
            plane_stride,
            xsize_blocks,
        ).scalars
    );
    launch
}

} // verus!

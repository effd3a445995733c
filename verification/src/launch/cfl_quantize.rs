//! Launch that quantizes chroma after chroma-from-luma.

use crate::device::{spread, spread_over, word_array, words, Handle, Kernel, Launch, LaunchSpec};
use vstd::prelude::*;

verus! {

/// The launch that [`cfl_quantize_dct8`] describes.
pub open spec fn cfl_quantize_dct8_launch(
    x_orig: Handle,
    quant_ac_y: Handle,
    weights_x: Handle,
    weights_y: Handle,
    qac_qm_x: Handle,
    qac_qm_y: Handle,
    x_factor_per_block: Handle,
    thresholds: Handle,
    output: Handle,
    num_blocks: u32,
) -> LaunchSpec {
    LaunchSpec {
        kernel: Kernel::CflQuantizeDct8,
        grid: spread(num_blocks as int, 64),
        arrays: seq![
            words(x_orig, num_blocks * 64),
            words(quant_ac_y, num_blocks * 64),
            words(weights_x, 64),
            words(weights_y, 64),
            words(qac_qm_x, num_blocks as int),
            words(qac_qm_y, num_blocks as int),
            words(x_factor_per_block, num_blocks as int),
            words(thresholds, 4),
            words(output, num_blocks * 64),
        ],
        scalars: seq![],
    }
}

/// Subtracts the luma prediction from one chroma channel of DCT8 blocks and
/// quantizes it.
pub fn cfl_quantize_dct8(
    x_orig: Handle,
    quant_ac_y: Handle,
    weights_x: Handle,
    weights_y: Handle,
    qac_qm_x: Handle,
    qac_qm_y: Handle,
    x_factor_per_block: Handle,
    thresholds: Handle,
    output: Handle,
    num_blocks: u32,
) -> (launch: Launch)
    ensures
        launch@ == cfl_quantize_dct8_launch(
            x_orig,
            quant_ac_y,
            weights_x,
            weights_y,
            qac_qm_x,
            qac_qm_y,
            x_factor_per_block,
            thresholds,
            output,
            num_blocks,
        ),
{
    let launch: Launch = Launch {
        kernel: Kernel::CflQuantizeDct8,
        grid: spread_over(num_blocks, 64),
        arrays: vec![
            word_array(x_orig, num_blocks as u64 * 64),
            word_array(quant_ac_y, num_blocks as u64 * 64),
            word_array(weights_x, 64),
            word_array(weights_y, 64),
            word_array(qac_qm_x, num_blocks as u64),
            word_array(qac_qm_y, num_blocks as u64),
            word_array(x_factor_per_block, num_blocks as u64),
            word_array(thresholds, 4),
            word_array(output, num_blocks as u64 * 64),
        ],
        scalars: Vec::new(),
    };
    assert(
        launch@.arrays =~= cfl_quantize_dct8_launch(
            x_orig,
            quant_ac_y,
            weights_x,
            weights_y,
            qac_qm_x,
            qac_qm_y,
            x_factor_per_block,
            thresholds,
            output,
            num_blocks,
        ).arrays
    );
    assert(
        launch@.scalars =~= cfl_quantize_dct8_launch(
            x_orig,
            quant_ac_y,
            weights_x,
            weights_y,
            qac_qm_x,
            qac_qm_y,
            x_factor_per_block,
            thresholds,
            output,
            num_blocks,
        ).scalars
    );
    launch
}

} // verus!

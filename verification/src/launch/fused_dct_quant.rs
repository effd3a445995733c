//! Launches that join the DCT8 with its quantization.

use crate::device::{spread, spread_over, word_array, words, Handle, Kernel, Launch, LaunchSpec};
use vstd::prelude::*;

verus! {

/// The launch that [`dequant_idct8_fused_y_wide`] describes.
pub open spec fn dequant_idct8_fused_y_wide_launch(
    quant: Handle,
    weights: Handle,
    qac_qm: Handle,
    output: Handle,
    num_blocks: u32,
) -> LaunchSpec {
    LaunchSpec {
        kernel: Kernel::DequantIdct8FusedYWide,
        grid: spread(num_blocks as int, 64),
        arrays: seq![
            words(quant, num_blocks * 64),
            words(weights, num_blocks * 64),
            words(qac_qm, num_blocks as int),
            words(output, num_blocks * 64),
        ],
        scalars: seq![],
    }
}

/// Dequantizes luma DCT8 blocks and transforms them back.
pub fn dequant_idct8_fused_y_wide(
    quant: Handle,
    weights: Handle,
    qac_qm: Handle,
    output: Handle,
    num_blocks: u32,
) -> (launch: Launch)
    ensures
        launch@ == dequant_idct8_fused_y_wide_launch(quant, weights, qac_qm, output, num_blocks),
{
    let launch: Launch = Launch {
        kernel: Kernel::DequantIdct8FusedYWide,
        grid: spread_over(num_blocks, 64),
        arrays: vec![
            word_array(quant, num_blocks as u64 * 64),
            word_array(weights, num_blocks as u64 * 64),
            word_array(qac_qm, num_blocks as u64),
            word_array(output, num_blocks as u64 * 64),
        ],
        scalars: Vec::new(),
    };
    assert(
        launch@.arrays =~= dequant_idct8_fused_y_wide_launch(
            quant,
            weights,
            qac_qm,
            output,
            num_blocks,
        ).arrays
    );
    assert(
        launch@.scalars =~= dequant_idct8_fused_y_wide_launch(
            quant,
            weights,
            qac_qm,
            output,
            num_blocks,
        ).scalars
    );
    launch
}

/// The launch that [`dct8_quantize_fused_wide`] describes.
pub open spec fn dct8_quantize_fused_wide_launch(
    pixels: Handle,
    weights: Handle,
    qac_qm: Handle,
    thresholds: Handle,
    output: Handle,
    num_blocks: u32,
) -> LaunchSpec {
    LaunchSpec {
        kernel: Kernel::Dct8QuantizeFusedWide,
        grid: spread(num_blocks as int, 64),
        arrays: seq![
            words(pixels, num_blocks * 64),
            words(weights, num_blocks * 64),
            words(qac_qm, num_blocks as int),
            words(thresholds, 4),
            words(output, num_blocks * 64),
        ],
        scalars: seq![],
    }
}

/// Transforms and quantizes 8x8 blocks, with weights per block.
pub fn dct8_quantize_fused_wide(
    pixels: Handle,
    weights: Handle,
    qac_qm: Handle,
    thresholds: Handle,
    output: Handle,
    num_blocks: u32,
) -> (launch: Launch)
    ensures
        launch@ == dct8_quantize_fused_wide_launch(
            pixels,
            weights,
            qac_qm,
            thresholds,
            output,
            num_blocks,
        ),
{
    let launch: Launch = Launch {
        kernel: Kernel::Dct8QuantizeFusedWide,
        grid: spread_over(num_blocks, 64),
        arrays: vec![
            word_array(pixels, num_blocks as u64 * 64),
            word_array(weights, num_blocks as u64 * 64),
            word_array(qac_qm, num_blocks as u64),
            word_array(thresholds, 4),
            word_array(output, num_blocks as u64 * 64),
        ],
        scalars: Vec::new(),
    };
    assert(
        launch@.arrays =~= dct8_quantize_fused_wide_launch(
            pixels,
            weights,
            qac_qm,
            thresholds,
            output,
            num_blocks,
        ).arrays
    );
    assert(
        launch@.scalars =~= dct8_quantize_fused_wide_launch(
            pixels,
            weights,
            qac_qm,
            thresholds,
            output,
            num_blocks,
        ).scalars
    );
    launch
}

/// The launch that [`dct8_quantize_fused_broadcast_w_wide`] describes.
pub open spec fn dct8_quantize_fused_broadcast_w_wide_launch(
    pixels: Handle,
    weights: Handle,
    qac_qm: Handle,
    thresholds: Handle,
    output: Handle,
    num_blocks: u32,
) -> LaunchSpec {
    LaunchSpec {
        kernel: Kernel::Dct8QuantizeFusedBroadcastWWide,
        grid: spread(num_blocks as int, 64),
        arrays: seq![
            words(pixels, num_blocks * 64),
            words(weights, 64),
            words(qac_qm, num_blocks as int),
            words(thresholds, 4),
            words(output, num_blocks * 64),
        ],
        scalars: seq![],
    }
}

/// Transforms and quantizes 8x8 blocks, with one weight matrix for all blocks.
pub fn dct8_quantize_fused_broadcast_w_wide(
    pixels: Handle,
    weights: Handle,
    qac_qm: Handle,
    thresholds: Handle,
    output: Handle,
    num_blocks: u32,
) -> (launch: Launch)
    ensures
        launch@ == dct8_quantize_fused_broadcast_w_wide_launch(
            pixels,
            weights,
            qac_qm,
            thresholds,
            output,
            num_blocks,
        ),
{
    let launch: Launch = Launch {
        kernel: Kernel::Dct8QuantizeFusedBroadcastWWide,
        grid: spread_over(num_blocks, 64),
        arrays: vec![
            word_array(pixels, num_blocks as u64 * 64),
            word_array(weights, 64),
            word_array(qac_qm, num_blocks as u64),
            word_array(thresholds, 4),
            word_array(output, num_blocks as u64 * 64),
        ],
        scalars: Vec::new(),
    };
    assert(
        launch@.arrays =~= dct8_quantize_fused_broadcast_w_wide_launch(
            pixels,
            weights,
            qac_qm,
            thresholds,
            output,
            num_blocks,
        ).arrays
    );
    assert(
        launch@.scalars =~= dct8_quantize_fused_broadcast_w_wide_launch(
            pixels,
            weights,
            qac_qm,
            thresholds,
            output,
            num_blocks,
        ).scalars
    );
    launch
}

} // verus!

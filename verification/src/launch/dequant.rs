//! Launches for the dequantization of three channels of DCT8 blocks.

use crate::device::{
    cube_each, one_cube_each, word_array, words, Handle, Kernel, Launch, LaunchSpec,
};
use vstd::prelude::*;

verus! {

/// The launch that [`dequant_dct8`] describes.
pub open spec fn dequant_dct8_launch(
    quant_x: Handle,
    quant_y: Handle,
    quant_b: Handle,
    weights_x: Handle,
    weights_y: Handle,
    weights_b: Handle,
    qac_qm_x: Handle,
    qac_qm_y: Handle,
    qac_qm_b: Handle,
    x_factor: Handle,
    b_factor: Handle,
    out_x: Handle,
    out_y: Handle,
    out_b: Handle,
    num_blocks: u32,
) -> LaunchSpec {
    LaunchSpec {
        kernel: Kernel::DequantDct8,
        grid: cube_each(num_blocks, 1),
        arrays: seq![
            words(quant_x, num_blocks * 64),
            words(quant_y, num_blocks * 64),
            words(quant_b, num_blocks * 64),
            words(weights_x, num_blocks * 64),
            words(weights_y, num_blocks * 64),
            words(weights_b, num_blocks * 64),
            words(qac_qm_x, num_blocks as int),
            words(qac_qm_y, num_blocks as int),
            words(qac_qm_b, num_blocks as int),
            words(x_factor, num_blocks as int),
            words(b_factor, num_blocks as int),
            words(out_x, num_blocks * 64),
            words(out_y, num_blocks * 64),
            words(out_b, num_blocks * 64),
        ],
        scalars: seq![],
    }
}

/// Dequantizes three channels of DCT8 blocks and adds the luma prediction back
/// to the chroma channels, with weights per block.
pub fn dequant_dct8(
    quant_x: Handle,
    quant_y: Handle,
    quant_b: Handle,
    weights_x: Handle,
    weights_y: Handle,
    weights_b: Handle,
    qac_qm_x: Handle,
    qac_qm_y: Handle,
    qac_qm_b: Handle,
    x_factor: Handle,
    b_factor: Handle,
    out_x: Handle,
    out_y: Handle,
    out_b: Handle,
    num_blocks: u32,
) -> (launch: Launch)
    ensures
        launch@ == dequant_dct8_launch(
            quant_x,
            quant_y,
            quant_b,
            weights_x,
            weights_y,
            weights_b,
            qac_qm_x,
            qac_qm_y,
            qac_qm_b,
            x_factor,
            b_factor,
            out_x,
            out_y,
            out_b,
            num_blocks,
        ),
{
    let launch: Launch = Launch {
        kernel: Kernel::DequantDct8,
        grid: one_cube_each(num_blocks, 1),
        arrays: vec![
            word_array(quant_x, num_blocks as u64 * 64),
            word_array(quant_y, num_blocks as u64 * 64),
            word_array(quant_b, num_blocks as u64 * 64),
            word_array(weights_x, num_blocks as u64 * 64),
            word_array(weights_y, num_blocks as u64 * 64),
            word_array(weights_b, num_blocks as u64 * 64),
            word_array(qac_qm_x, num_blocks as u64),
            word_array(qac_qm_y, num_blocks as u64),
            word_array(qac_qm_b, num_blocks as u64),
            word_array(x_factor, num_blocks as u64),
            word_array(b_factor, num_blocks as u64),
            word_array(out_x, num_blocks as u64 * 64),
            word_array(out_y, num_blocks as u64 * 64),
            word_array(out_b, num_blocks as u64 * 64),
        ],
        scalars: Vec::new(),
    };
    assert(
        launch@.arrays =~= dequant_dct8_launch(
            quant_x,
            quant_y,
            quant_b,
            weights_x,
            weights_y,
            weights_b,
            qac_qm_x,
            qac_qm_y,
            qac_qm_b,
            x_factor,
            b_factor,
            out_x,
            out_y,
            out_b,
            num_blocks,
        ).arrays
    );
    assert(
        launch@.scalars =~= dequant_dct8_launch(
            quant_x,
            quant_y,
            quant_b,
            weights_x,
            weights_y,
            weights_b,
            qac_qm_x,
            qac_qm_y,
            qac_qm_b,
            x_factor,
            b_factor,
            out_x,
            out_y,
            out_b,
            num_blocks,
        ).scalars
    );
    launch
}

/// The launch that [`dequant_dct8_broadcast_w`] describes.
pub open spec fn dequant_dct8_broadcast_w_launch(
    quant_x: Handle,
    quant_y: Handle,
    quant_b: Handle,
    weights_x: Handle,
    weights_y: Handle,
    weights_b: Handle,
    qac_qm_x: Handle,
    qac_qm_y: Handle,
    qac_qm_b: Handle,
    x_factor: Handle,
    b_factor: Handle,
    out_x: Handle,
    out_y: Handle,
    out_b: Handle,
    num_blocks: u32,
) -> LaunchSpec {
    LaunchSpec {
        kernel: Kernel::DequantDct8BroadcastW,
        grid: cube_each(num_blocks, 1),
        arrays: seq![
            words(quant_x, num_blocks * 64),
            words(quant_y, num_blocks * 64),
            words(quant_b, num_blocks * 64),
            words(weights_x, 64),
            words(weights_y, 64),
            words(weights_b, 64),
            words(qac_qm_x, num_blocks as int),
            words(qac_qm_y, num_blocks as int),
            words(qac_qm_b, num_blocks as int),
            words(x_factor, num_blocks as int),
            words(b_factor, num_blocks as int),
            words(out_x, num_blocks * 64),
            words(out_y, num_blocks * 64),
            words(out_b, num_blocks * 64),
        ],
        scalars: seq![],
    }
}

/// Dequantizes three channels of DCT8 blocks and adds the luma prediction back
/// to the chroma channels, with one weight matrix for all blocks.
pub fn dequant_dct8_broadcast_w(
    quant_x: Handle,
    quant_y: Handle,
    quant_b: Handle,
    weights_x: Handle,
    weights_y: Handle,
    weights_b: Handle,
    qac_qm_x: Handle,
    qac_qm_y: Handle,
    qac_qm_b: Handle,
    x_factor: Handle,
    b_factor: Handle,
    out_x: Handle,
    out_y: Handle,
    out_b: Handle,
    num_blocks: u32,
) -> (launch: Launch)
    ensures
        launch@ == dequant_dct8_broadcast_w_launch(
            quant_x,
            quant_y,
            quant_b,
            weights_x,
            weights_y,
            weights_b,
            qac_qm_x,
            qac_qm_y,
            qac_qm_b,
            x_factor,
            b_factor,
            out_x,
            out_y,
            out_b,
            num_blocks,
        ),
{
    let launch: Launch = Launch {
        kernel: Kernel::DequantDct8BroadcastW,
        grid: one_cube_each(num_blocks, 1),
        arrays: vec![
            word_array(quant_x, num_blocks as u64 * 64),
            word_array(quant_y, num_blocks as u64 * 64),
            word_array(quant_b, num_blocks as u64 * 64),
            word_array(weights_x, 64),
            word_array(weights_y, 64),
            word_array(weights_b, 64),
            word_array(qac_qm_x, num_blocks as u64),
            word_array(qac_qm_y, num_blocks as u64),
            word_array(qac_qm_b, num_blocks as u64),
            word_array(x_factor, num_blocks as u64),
            word_array(b_factor, num_blocks as u64),
            word_array(out_x, num_blocks as u64 * 64),
            word_array(out_y, num_blocks as u64 * 64),
            word_array(out_b, num_blocks as u64 * 64),
        ],
        scalars: Vec::new(),
    };
    assert(
        launch@.arrays =~= dequant_dct8_broadcast_w_launch(
            quant_x,
            quant_y,
            quant_b,
            weights_x,
            weights_y,
            weights_b,
            qac_qm_x,
            qac_qm_y,
            qac_qm_b,
            x_factor,
            b_factor,
            out_x,
            out_y,
            out_b,
            num_blocks,
        ).arrays
    );
    assert(
        launch@.scalars =~= dequant_dct8_broadcast_w_launch(
            quant_x,
            quant_y,
            quant_b,
            weights_x,
            weights_y,
            weights_b,
            qac_qm_x,
            qac_qm_y,
            qac_qm_b,
            x_factor,
            b_factor,
            out_x,
            out_y,
            out_b,
            num_blocks,
        ).scalars
    );
    launch
}

} // verus!

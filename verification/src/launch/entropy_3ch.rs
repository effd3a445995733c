//! Launch for the entropy estimate of three channels.

use crate::device::{
    area, spread, spread_over, word_array, words, Handle, Kernel, Launch, LaunchSpec, Scalar,
};
use crate::float::Float32;
use vstd::prelude::*;

verus! {

/// The launch that [`entropy_coeffs_pixel_3ch`] describes.
pub open spec fn entropy_coeffs_pixel_3ch_launch(
    block_x: Handle,
    block_y: Handle,
    block_b: Handle,
    weights_x: Handle,
    weights_y: Handle,
    weights_b: Handle,
    inv_weights_x: Handle,
    inv_weights_y: Handle,
    inv_weights_b: Handle,
    error_x: Handle,
    error_y: Handle,
    error_b: Handle,
    out_x: Handle,
    out_y: Handle,
    out_b: Handle,
    num_blocks: u32,
    n_per_block: u32,
    cmap_factor_x: Float32,
    cmap_factor_b: Float32,
    quant_x: Float32,
    quant_y: Float32,
    quant_b: Float32,
    k_cost_delta: Float32,
) -> LaunchSpec {
    LaunchSpec {
        kernel: Kernel::EntropyCoeffsPixel3ch,
        grid: spread(num_blocks as int, 64),
        arrays: seq![
            words(block_x, num_blocks * n_per_block),
            words(block_y, num_blocks * n_per_block),
            words(block_b, num_blocks * n_per_block),
            words(weights_x, n_per_block as int),
            words(weights_y, n_per_block as int),
            words(weights_b, n_per_block as int),
            words(inv_weights_x, n_per_block as int),
            words(inv_weights_y, n_per_block as int),
            words(inv_weights_b, n_per_block as int),
            words(error_x, num_blocks * n_per_block),
            words(error_y, num_blocks * n_per_block),
            words(error_b, num_blocks * n_per_block),
            words(out_x, num_blocks * 4),
            words(out_y, num_blocks * 4),
            words(out_b, num_blocks * 4),
        ],
        scalars: seq![
            Scalar::U32(n_per_block),
            Scalar::F32(cmap_factor_x),
            Scalar::F32(cmap_factor_b),
            Scalar::F32(quant_x),
            Scalar::F32(quant_y),
            Scalar::F32(quant_b),
            Scalar::F32(k_cost_delta),
        ],
    }
}

/// The entropy estimate of blocks over three channels at once.
pub fn entropy_coeffs_pixel_3ch(
    block_x: Handle,
    block_y: Handle,
    block_b: Handle,
    weights_x: Handle,
    weights_y: Handle,
    weights_b: Handle,
    inv_weights_x: Handle,
    inv_weights_y: Handle,
    inv_weights_b: Handle,
    error_x: Handle,
    error_y: Handle,
    error_b: Handle,
    out_x: Handle,
    out_y: Handle,
    out_b: Handle,
    num_blocks: u32,
    n_per_block: u32,
    cmap_factor_x: Float32,
    cmap_factor_b: Float32,
    quant_x: Float32,
    quant_y: Float32,
    quant_b: Float32,
    k_cost_delta: Float32,
) -> (launch: Launch)
    ensures
        launch@ == entropy_coeffs_pixel_3ch_launch(
            block_x,
            block_y,
            block_b,
            weights_x,
            weights_y,
            weights_b,
            inv_weights_x,
            inv_weights_y,
            inv_weights_b,
            error_x,
            error_y,
            error_b,
            out_x,
            out_y,
            out_b,
            num_blocks,
            n_per_block,
            cmap_factor_x,
            cmap_factor_b,
            quant_x,
            quant_y,
            quant_b,
            k_cost_delta,
        ),
{
    let launch: Launch = Launch {
        kernel: Kernel::EntropyCoeffsPixel3ch,
        grid: spread_over(num_blocks, 64),
        arrays: vec![
            word_array(block_x, area(num_blocks, n_per_block)),
            word_array(block_y, area(num_blocks, n_per_block)),
            word_array(block_b, area(num_blocks, n_per_block)),
            word_array(weights_x, n_per_block as u64),
            word_array(weights_y, n_per_block as u64),
            word_array(weights_b, n_per_block as u64),
            word_array(inv_weights_x, n_per_block as u64),
            word_array(inv_weights_y, n_per_block as u64),
            word_array(inv_weights_b, n_per_block as u64),
            word_array(error_x, area(num_blocks, n_per_block)),
            word_array(error_y, area(num_blocks, n_per_block)),
            word_array(error_b, area(num_blocks, n_per_block)),
            word_array(out_x, num_blocks as u64 * 4),
            word_array(out_y, num_blocks as u64 * 4),
            word_array(out_b, num_blocks as u64 * 4),
        ],
        scalars: vec![
            Scalar::U32(n_per_block),
            Scalar::F32(cmap_factor_x),
            Scalar::F32(cmap_factor_b),
            Scalar::F32(quant_x),
            Scalar::F32(quant_y),
            Scalar::F32(quant_b),
            Scalar::F32(k_cost_delta),
        ],
    };
    assert(
        launch@.arrays =~= entropy_coeffs_pixel_3ch_launch(
            block_x,
            block_y,
            block_b,
            weights_x,
            weights_y,
            weights_b,
            inv_weights_x,
            inv_weights_y,
            inv_weights_b,
            error_x,
            error_y,
            error_b,
            out_x,
            out_y,
            out_b,
            num_blocks,
            n_per_block,
            cmap_factor_x,
            cmap_factor_b,
            quant_x,
            quant_y,
            quant_b,
            k_cost_delta,
        ).arrays
    );
    assert(
        launch@.scalars =~= entropy_coeffs_pixel_3ch_launch(
            block_x,
            block_y,
            block_b,
            weights_x,
            weights_y,
            weights_b,
            inv_weights_x,
            inv_weights_y,
            inv_weights_b,
            error_x,
            error_y,
            error_b,
            out_x,
            out_y,
            out_b,
            num_blocks,
            n_per_block,
            cmap_factor_x,
            cmap_factor_b,
            quant_x,
            quant_y,
            quant_b,
            k_cost_delta,
        ).scalars
    );
    launch
}

} // verus!

//! Launches for the entropy estimate of coefficients.

use crate::device::{
    area, cube_each, one_cube_each, word_array, words, Handle, Kernel, Launch, LaunchSpec, Scalar,
};
use crate::float::Float32;
use vstd::prelude::*;

verus! {

/// The launch that [`entropy_coeffs_pixel`] describes.
pub open spec fn entropy_coeffs_pixel_launch(
    block_c: Handle,
    block_y: Handle,
    weights: Handle,
    inv_weights: Handle,
    error_coeffs: Handle,
    output: Handle,
    num_blocks: u32,
    n: u32,
    cmap_factor: Float32,
    quant: Float32,
    k_cost_delta: Float32,
) -> LaunchSpec {
    LaunchSpec {
        kernel: Kernel::EntropyCoeffsPixel,
        grid: cube_each(num_blocks, 1),
        arrays: seq![
            words(block_c, num_blocks * n),
            words(block_y, num_blocks * n),
            words(weights, num_blocks * n),
            words(inv_weights, num_blocks * n),
            words(error_coeffs, num_blocks * n),
            words(output, num_blocks * 4),
        ],
        scalars: seq![
            Scalar::U32(n),
            Scalar::F32(cmap_factor),
            Scalar::F32(quant),
            Scalar::F32(k_cost_delta),
        ],
    }
}

/// The entropy estimate of blocks, with the quantization errors for the pixel
/// loss.
pub fn entropy_coeffs_pixel(
    block_c: Handle,
    block_y: Handle,
    weights: Handle,
    inv_weights: Handle,
    error_coeffs: Handle,
    output: Handle,
    num_blocks: u32,
    n: u32,
    cmap_factor: Float32,
    quant: Float32,
    k_cost_delta: Float32,
) -> (launch: Launch)
    ensures
        launch@ == entropy_coeffs_pixel_launch(
            block_c,
            block_y,
            weights,
            inv_weights,
            error_coeffs,
            output,
            num_blocks,
            n,
            cmap_factor,
            quant,
            k_cost_delta,
        ),
{
    let launch: Launch = Launch {
        kernel: Kernel::EntropyCoeffsPixel,
        grid: one_cube_each(num_blocks, 1),
        arrays: vec![
            word_array(block_c, area(num_blocks, n)),
            word_array(block_y, area(num_blocks, n)),
            word_array(weights, area(num_blocks, n)),
            word_array(inv_weights, area(num_blocks, n)),
            word_array(error_coeffs, area(num_blocks, n)),
            word_array(output, num_blocks as u64 * 4),
        ],
        scalars: vec![
            Scalar::U32(n),
            Scalar::F32(cmap_factor),
            Scalar::F32(quant),
            Scalar::F32(k_cost_delta),
        ],
    };
    assert(
        launch@.arrays =~= entropy_coeffs_pixel_launch(
            block_c,
            block_y,
            weights,
            inv_weights,
            error_coeffs,
            output,
            num_blocks,
            n,
            cmap_factor,
            quant,
            k_cost_delta,
        ).arrays
    );
    assert(
        launch@.scalars =~= entropy_coeffs_pixel_launch(
            block_c,
            block_y,
            weights,
            inv_weights,
            error_coeffs,
            output,
            num_blocks,
            n,
            cmap_factor,
            quant,
            k_cost_delta,
        ).scalars
    );
    launch
}

/// The launch that [`entropy_coeffs_pixel_broadcast_w`] describes.
pub open spec fn entropy_coeffs_pixel_broadcast_w_launch(
    block_c: Handle,
    block_y: Handle,
    weights: Handle,
    inv_weights: Handle,
    error_coeffs: Handle,
    output: Handle,
    num_blocks: u32,
    n: u32,
    cmap_factor: Float32,
    quant: Float32,
    k_cost_delta: Float32,
) -> LaunchSpec {
    LaunchSpec {
        kernel: Kernel::EntropyCoeffsPixelBroadcastW,
        grid: cube_each(num_blocks, 1),
        arrays: seq![
            words(block_c, num_blocks * n),
            words(block_y, num_blocks * n),
            words(weights, n as int),
            words(inv_weights, n as int),
            words(error_coeffs, num_blocks * n),
            words(output, num_blocks * 4),
        ],
        scalars: seq![
            Scalar::U32(n),
            Scalar::F32(cmap_factor),
            Scalar::F32(quant),
            Scalar::F32(k_cost_delta),
        ],
    }
}

/// The entropy estimate of blocks, with the quantization errors for the pixel
/// loss, one weight matrix for all blocks.
pub fn entropy_coeffs_pixel_broadcast_w(
    block_c: Handle,
    block_y: Handle,
    weights: Handle,
    inv_weights: Handle,
    error_coeffs: Handle,
    output: Handle,
    num_blocks: u32,
    n: u32,
    cmap_factor: Float32,
    quant: Float32,
    k_cost_delta: Float32,
) -> (launch: Launch)
    ensures
        launch@ == entropy_coeffs_pixel_broadcast_w_launch(
            block_c,
            block_y,
            weights,
            inv_weights,
            error_coeffs,
            output,
            num_blocks,
            n,
            cmap_factor,
            quant,
            k_cost_delta,
        ),
{
    let launch: Launch = Launch {
        kernel: Kernel::EntropyCoeffsPixelBroadcastW,
        grid: one_cube_each(num_blocks, 1),
        arrays: vec![
            word_array(block_c, area(num_blocks, n)),
            word_array(block_y, area(num_blocks, n)),
            word_array(weights, n as u64),
            word_array(inv_weights, n as u64),
            word_array(error_coeffs, area(num_blocks, n)),
            word_array(output, num_blocks as u64 * 4),
        ],
        scalars: vec![
            Scalar::U32(n),
            Scalar::F32(cmap_factor),
            Scalar::F32(quant),
            Scalar::F32(k_cost_delta),
        ],
    };
    assert(
        launch@.arrays =~= entropy_coeffs_pixel_broadcast_w_launch(
            block_c,
            block_y,
            weights,
            inv_weights,
            error_coeffs,
            output,
            num_blocks,
            n,
            cmap_factor,
            quant,
            k_cost_delta,
        ).arrays
    );
    assert(
        launch@.scalars =~= entropy_coeffs_pixel_broadcast_w_launch(
            block_c,
            block_y,
            weights,
            inv_weights,
            error_coeffs,
            output,
            num_blocks,
            n,
            cmap_factor,
            quant,
            k_cost_delta,
        ).scalars
    );
    launch
}

/// The launch that [`entropy_coeffs_coeff`] describes.
pub open spec fn entropy_coeffs_coeff_launch(
    block_c: Handle,
    block_y: Handle,
    inv_weights: Handle,
    output: Handle,
    num_blocks: u32,
    n: u32,
    cmap_factor: Float32,
    quant: Float32,
    k_cost_delta: Float32,
    k_cost2: Float32,
) -> LaunchSpec {
    LaunchSpec {
        kernel: Kernel::EntropyCoeffsCoeff,
        grid: cube_each(num_blocks, 1),
        arrays: seq![
            words(block_c, num_blocks * n),
            words(block_y, num_blocks * n),
            words(inv_weights, num_blocks * n),
            words(output, num_blocks * 4),
        ],
        scalars: seq![
            Scalar::U32(n),
            Scalar::F32(cmap_factor),
            Scalar::F32(quant),
            Scalar::F32(k_cost_delta),
            Scalar::F32(k_cost2),
        ],
    }
}

/// The entropy estimate of blocks from their coefficients alone.
pub fn entropy_coeffs_coeff(
    block_c: Handle,
    block_y: Handle,
    inv_weights: Handle,
    output: Handle,
    num_blocks: u32,
    n: u32,
    cmap_factor: Float32,
    quant: Float32,
    k_cost_delta: Float32,
    k_cost2: Float32,
) -> (launch: Launch)
    ensures
        launch@ == entropy_coeffs_coeff_launch(
            block_c,
            block_y,
            inv_weights,
            output,
            num_blocks,
            n,
            cmap_factor,
            quant,
            k_cost_delta,
            k_cost2,
        ),
{
    let launch: Launch = Launch {
        kernel: Kernel::EntropyCoeffsCoeff,
        grid: one_cube_each(num_blocks, 1),
        arrays: vec![
            word_array(block_c, area(num_blocks, n)),
            word_array(block_y, area(num_blocks, n)),
            word_array(inv_weights, area(num_blocks, n)),
            word_array(output, num_blocks as u64 * 4),
        ],
        scalars: vec![
            Scalar::U32(n),
            Scalar::F32(cmap_factor),
            Scalar::F32(quant),
            Scalar::F32(k_cost_delta),
            Scalar::F32(k_cost2),
        ],
    };
    assert(
        launch@.arrays =~= entropy_coeffs_coeff_launch(
            block_c,
            block_y,
            inv_weights,
            output,
            num_blocks,
            n,
            cmap_factor,
            quant,
            k_cost_delta,
            k_cost2,
        ).arrays
    );
    assert(
        launch@.scalars =~= entropy_coeffs_coeff_launch(
            block_c,
            block_y,
            inv_weights,
            output,
            num_blocks,
            n,
            cmap_factor,
            quant,
            k_cost_delta,
            k_cost2,
        ).scalars
    );
    launch
}

} // verus!

//! Launches for the quantization of coefficients.

use crate::device::{
    area, cube_each, one_cube_each, word_array, words, Grid, Handle, Kernel, Launch, LaunchSpec,
    Scalar,
};
use vstd::prelude::*;

verus! {

/// The launch that [`quantize_large`] describes.
pub open spec fn quantize_large_launch(
    coeffs: Handle,
    weights: Handle,
    qac_qm: Handle,
    thresholds: Handle,
    output: Handle,
    num_blocks: u32,
    grid_width: u32,
    grid_height: u32,
    llf_x: u32,
    llf_y: u32,
) -> LaunchSpec {
    LaunchSpec {
        kernel: Kernel::QuantizeLarge,
        grid: cube_each(num_blocks, 1),
        arrays: seq![
            words(coeffs, num_blocks * (grid_width * grid_height)),
            words(weights, num_blocks * (grid_width * grid_height)),
            words(qac_qm, num_blocks as int),
            words(thresholds, 4),
            words(output, num_blocks * (grid_width * grid_height)),
        ],
        scalars: seq![
            Scalar::U32(grid_width),
            Scalar::U32(grid_height),
            Scalar::U32(llf_x),
            Scalar::U32(llf_y),
        ],
    }
}

/// Quantizes blocks larger than 8x8, the `llf_x` by `llf_y` lowest coefficients
/// left out, with weights per block.
pub fn quantize_large(
    coeffs: Handle,
    weights: Handle,
    qac_qm: Handle,
    thresholds: Handle,
    output: Handle,
    num_blocks: u32,
    grid_width: u32,
    grid_height: u32,
    llf_x: u32,
    llf_y: u32,
) -> (launch: Launch)
    requires
        num_blocks * (grid_width * grid_height) <= u64::MAX,
    ensures
        launch@ == quantize_large_launch(
            coeffs,
            weights,
            qac_qm,
            thresholds,
            output,
            num_blocks,
            grid_width,
            grid_height,
            llf_x,
            llf_y,
        ),
{
    let size: u64 = area(grid_width, grid_height);
    assert(num_blocks * size == num_blocks * (grid_width * grid_height));
    let n: u64 = num_blocks as u64 * size;
    let launch: Launch = Launch {
        kernel: Kernel::QuantizeLarge,
        grid: one_cube_each(num_blocks, 1),
        arrays: vec![
            word_array(coeffs, n),
            word_array(weights, n),
            word_array(qac_qm, num_blocks as u64),
            word_array(thresholds, 4),
            word_array(output, n),
        ],
        scalars: vec![
            Scalar::U32(grid_width),
            Scalar::U32(grid_height),
            Scalar::U32(llf_x),
            Scalar::U32(llf_y),
        ],
    };
    assert(
        launch@.arrays =~= quantize_large_launch(
            coeffs,
            weights,
            qac_qm,
            thresholds,
            output,
            num_blocks,
            grid_width,
            grid_height,
            llf_x,
            llf_y,
        ).arrays
    );
    assert(
        launch@.scalars =~= quantize_large_launch(
            coeffs,
            weights,
            qac_qm,
            thresholds,
            output,
            num_blocks,
            grid_width,
            grid_height,
            llf_x,
            llf_y,
        ).scalars
    );
    launch
}

/// The launch that [`quantize_large_broadcast_w`] describes.
pub open spec fn quantize_large_broadcast_w_launch(
    coeffs: Handle,
    weights: Handle,
    qac_qm: Handle,
    thresholds: Handle,
    output: Handle,
    num_blocks: u32,
    grid_width: u32,
    grid_height: u32,
    llf_x: u32,
    llf_y: u32,
) -> LaunchSpec {
    LaunchSpec {
        kernel: Kernel::QuantizeLargeBroadcastW,
        grid: Grid::Items { count: num_blocks },
        arrays: seq![
            words(coeffs, num_blocks * (grid_width * grid_height)),
            words(weights, grid_width * grid_height),
            words(qac_qm, num_blocks as int),
            words(thresholds, 4),
            words(output, num_blocks * (grid_width * grid_height)),
        ],
        scalars: seq![
            Scalar::U32(grid_width),
            Scalar::U32(grid_height),
            Scalar::U32(llf_x),
            Scalar::U32(llf_y),
        ],
    }
}

/// Quantizes blocks larger than 8x8, the `llf_x` by `llf_y` lowest coefficients
/// left out, with one weight matrix for all blocks.
pub fn quantize_large_broadcast_w(
    coeffs: Handle,
    weights: Handle,
    qac_qm: Handle,
    thresholds: Handle,
    output: Handle,
    num_blocks: u32,
    grid_width: u32,
    grid_height: u32,
    llf_x: u32,
    llf_y: u32,
) -> (launch: Launch)
    requires
        num_blocks * (grid_width * grid_height) <= u64::MAX,
    ensures
        launch@ == quantize_large_broadcast_w_launch(
            coeffs,
            weights,
            qac_qm,
            thresholds,
            output,
            num_blocks,
            grid_width,
            grid_height,
            llf_x,
            llf_y,
        ),
{
    let size: u64 = area(grid_width, grid_height);
    assert(num_blocks * size == num_blocks * (grid_width * grid_height));
    let n: u64 = num_blocks as u64 * size;
    let launch: Launch = Launch {
        kernel: Kernel::QuantizeLargeBroadcastW,
        grid: Grid::Items { count: num_blocks },
        arrays: vec![
            word_array(coeffs, n),
            word_array(weights, area(grid_width, grid_height)),
            word_array(qac_qm, num_blocks as u64),
            word_array(thresholds, 4),
            word_array(output, n),
        ],
        scalars: vec![
            Scalar::U32(grid_width),
            Scalar::U32(grid_height),
            Scalar::U32(llf_x),
            Scalar::U32(llf_y),
        ],
    };
    assert(
        launch@.arrays =~= quantize_large_broadcast_w_launch(
            coeffs,
            weights,
            qac_qm,
            thresholds,
            output,
            num_blocks,
            grid_width,
            grid_height,
            llf_x,
            llf_y,
        ).arrays
    );
    assert(
        launch@.scalars =~= quantize_large_broadcast_w_launch(
            coeffs,
            weights,
            qac_qm,
            thresholds,
            output,
            num_blocks,
            grid_width,
            grid_height,
            llf_x,
            llf_y,
        ).scalars
    );
    launch
}

/// The launch that [`quantize_dct8`] describes.
pub open spec fn quantize_dct8_launch(
    coeffs: Handle,
    weights: Handle,
    qac_qm: Handle,
    thresholds: Handle,
    output: Handle,
    num_blocks: u32,
) -> LaunchSpec {
    LaunchSpec {
        kernel: Kernel::QuantizeDct8,
        grid: cube_each(num_blocks, 1),
        arrays: seq![
            words(coeffs, num_blocks * 64),
            words(weights, num_blocks * 64),
            words(qac_qm, num_blocks as int),
            words(thresholds, 4),
            words(output, num_blocks * 64),
        ],
        scalars: seq![],
    }
}

/// Quantizes DCT8 blocks, with weights per block.
pub fn quantize_dct8(
    coeffs: Handle,
    weights: Handle,
    qac_qm: Handle,
    thresholds: Handle,
    output: Handle,
    num_blocks: u32,
) -> (launch: Launch)
    ensures
        launch@ == quantize_dct8_launch(coeffs, weights, qac_qm, thresholds, output, num_blocks),
{
    let launch: Launch = Launch {
        kernel: Kernel::QuantizeDct8,
        grid: one_cube_each(num_blocks, 1),
        arrays: vec![
            word_array(coeffs, num_blocks as u64 * 64),
            word_array(weights, num_blocks as u64 * 64),
            word_array(qac_qm, num_blocks as u64),
            word_array(thresholds, 4),
            word_array(output, num_blocks as u64 * 64),
        ],
        scalars: Vec::new(),
    };
    assert(
        launch@.arrays =~= quantize_dct8_launch(
            coeffs,
            weights,
            qac_qm,
            thresholds,
            output,
            num_blocks,
        ).arrays
    );
    assert(
        launch@.scalars =~= quantize_dct8_launch(
            coeffs,
            weights,
            qac_qm,
            thresholds,
            output,
            num_blocks,
        ).scalars
    );
    launch
}

/// The launch that [`quantize_dct8_broadcast_w`] describes.
pub open spec fn quantize_dct8_broadcast_w_launch(
    coeffs: Handle,
    weights: Handle,
    qac_qm: Handle,
    thresholds: Handle,
    output: Handle,
    num_blocks: u32,
) -> LaunchSpec {
    LaunchSpec {
        kernel: Kernel::QuantizeDct8BroadcastW,
        grid: cube_each(num_blocks, 1),
        arrays: seq![
            words(coeffs, num_blocks * 64),
            words(weights, 64),
            words(qac_qm, num_blocks as int),
            words(thresholds, 4),
            words(output, num_blocks * 64),
        ],
        scalars: seq![],
    }
}

/// Quantizes DCT8 blocks, with one weight matrix for all blocks.
pub fn quantize_dct8_broadcast_w(
    coeffs: Handle,
    weights: Handle,
    qac_qm: Handle,
    thresholds: Handle,
    output: Handle,
    num_blocks: u32,
) -> (launch: Launch)
    ensures
        launch@ == quantize_dct8_broadcast_w_launch(
            coeffs,
            weights,
            qac_qm,
            thresholds,
            output,
            num_blocks,
        ),
{
    let launch: Launch = Launch {
        kernel: Kernel::QuantizeDct8BroadcastW,
        grid: one_cube_each(num_blocks, 1),
        arrays: vec![
            word_array(coeffs, num_blocks as u64 * 64),
            word_array(weights, 64),
            word_array(qac_qm, num_blocks as u64),
            word_array(thresholds, 4),
            word_array(output, num_blocks as u64 * 64),
        ],
        scalars: Vec::new(),
    };
    assert(
        launch@.arrays =~= quantize_dct8_broadcast_w_launch(
            coeffs,
            weights,
            qac_qm,
            thresholds,
            output,
            num_blocks,
        ).arrays
    );
    assert(
        launch@.scalars =~= quantize_dct8_broadcast_w_launch(
            coeffs,
            weights,
            qac_qm,
            thresholds,
            output,
            num_blocks,
        ).scalars
    );
    launch
}

} // verus!

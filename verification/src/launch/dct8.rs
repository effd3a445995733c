//! Launches for the 8x8 transform.

use crate::device::{
    cube_each, one_cube_each, spread, spread_over, word_array, words, Handle, Kernel, Launch,
    LaunchSpec, Scalar,
};
use crate::float::Float32;
use vstd::prelude::*;

verus! {

/// The launch that [`dct_8x8`] describes.
pub open spec fn dct_8x8_launch(
    input: Handle,
    output: Handle,
    num_blocks: u32,
) -> LaunchSpec {
    LaunchSpec {
        kernel: Kernel::Dct8x8,
        grid: cube_each(num_blocks, 1),
        arrays: seq![
            words(input, num_blocks * 64),
            words(output, num_blocks * 64),
        ],
        scalars: seq![],
    }
}

/// The forward DCT of `num_blocks` 8x8 blocks, one thread to a cube.
pub fn dct_8x8(
    input: Handle,
    output: Handle,
    num_blocks: u32,
) -> (launch: Launch)
    ensures
        launch@ == dct_8x8_launch(input, output, num_blocks),
{
    let launch: Launch = Launch {
        kernel: Kernel::Dct8x8,
        grid: one_cube_each(num_blocks, 1),
        arrays: vec![
            word_array(input, num_blocks as u64 * 64),
            word_array(output, num_blocks as u64 * 64),
        ],
        scalars: Vec::new(),
    };
    assert(launch@.arrays =~= dct_8x8_launch(input, output, num_blocks).arrays);
    assert(launch@.scalars =~= dct_8x8_launch(input, output, num_blocks).scalars);
    launch
}

/// The launch that [`dct_8x8_wide`] describes.
pub open spec fn dct_8x8_wide_launch(
    input: Handle,
    output: Handle,
    num_blocks: u32,
) -> LaunchSpec {
    LaunchSpec {
        kernel: Kernel::Dct8x8Wide,
        grid: spread(num_blocks as int, 64),
        arrays: seq![
            words(input, num_blocks * 64),
            words(output, num_blocks * 64),
        ],
        scalars: seq![],
    }
}

/// The forward DCT of `num_blocks` 8x8 blocks, sixty-four threads to a cube.
pub fn dct_8x8_wide(
    input: Handle,
    output: Handle,
    num_blocks: u32,
) -> (launch: Launch)
    ensures
        launch@ == dct_8x8_wide_launch(input, output, num_blocks),
{
    let launch: Launch = Launch {
        kernel: Kernel::Dct8x8Wide,
        grid: spread_over(num_blocks, 64),
        arrays: vec![
            word_array(input, num_blocks as u64 * 64),
            word_array(output, num_blocks as u64 * 64),
        ],
        scalars: Vec::new(),
    };
    assert(launch@.arrays =~= dct_8x8_wide_launch(input, output, num_blocks).arrays);
    assert(launch@.scalars =~= dct_8x8_wide_launch(input, output, num_blocks).scalars);
    launch
}

/// The launch that [`dct_8x8_coop`] describes.
pub open spec fn dct_8x8_coop_launch(
    input: Handle,
    output: Handle,
    num_blocks: u32,
) -> LaunchSpec {
    LaunchSpec {
        kernel: Kernel::Dct8x8Coop,
        grid: cube_each(num_blocks, 8),
        arrays: seq![
            words(input, num_blocks * 64),
            words(output, num_blocks * 64),
        ],
        scalars: seq![],
    }
}

/// The forward DCT of `num_blocks` 8x8 blocks, eight threads to a block.
pub fn dct_8x8_coop(
    input: Handle,
    output: Handle,
    num_blocks: u32,
) -> (launch: Launch)
    ensures
        launch@ == dct_8x8_coop_launch(input, output, num_blocks),
{
    let launch: Launch = Launch {
        kernel: Kernel::Dct8x8Coop,
        grid: one_cube_each(num_blocks, 8),
        arrays: vec![
            word_array(input, num_blocks as u64 * 64),
            word_array(output, num_blocks as u64 * 64),
        ],
        scalars: Vec::new(),
    };
    assert(launch@.arrays =~= dct_8x8_coop_launch(input, output, num_blocks).arrays);
    assert(launch@.scalars =~= dct_8x8_coop_launch(input, output, num_blocks).scalars);
    launch
}

/// The launch that [`idct_8x8`] describes.
pub open spec fn idct_8x8_launch(
    input: Handle,
    output: Handle,
    num_blocks: u32,
) -> LaunchSpec {
    LaunchSpec {
        kernel: Kernel::Idct8x8,
        grid: cube_each(num_blocks, 1),
        arrays: seq![
            words(input, num_blocks * 64),
            words(output, num_blocks * 64),
        ],
        scalars: seq![],
    }
}

/// The inverse DCT of `num_blocks` 8x8 blocks, one thread to a cube.
pub fn idct_8x8(
    input: Handle,
    output: Handle,
    num_blocks: u32,
) -> (launch: Launch)
    ensures
        launch@ == idct_8x8_launch(input, output, num_blocks),
{
    let launch: Launch = Launch {
        kernel: Kernel::Idct8x8,
        grid: one_cube_each(num_blocks, 1),
        arrays: vec![
            word_array(input, num_blocks as u64 * 64),
            word_array(output, num_blocks as u64 * 64),
        ],
        scalars: Vec::new(),
    };
    assert(launch@.arrays =~= idct_8x8_launch(input, output, num_blocks).arrays);
    assert(launch@.scalars =~= idct_8x8_launch(input, output, num_blocks).scalars);
    launch
}

/// The launch that [`idct_8x8_wide`] describes.
pub open spec fn idct_8x8_wide_launch(
    input: Handle,
    output: Handle,
    num_blocks: u32,
) -> LaunchSpec {
    LaunchSpec {
        kernel: Kernel::Idct8x8Wide,
        grid: spread(num_blocks as int, 64),
        arrays: seq![
            words(input, num_blocks * 64),
            words(output, num_blocks * 64),
        ],
        scalars: seq![],
    }
}

/// The inverse DCT of `num_blocks` 8x8 blocks, sixty-four threads to a cube.
pub fn idct_8x8_wide(
    input: Handle,
    output: Handle,
    num_blocks: u32,
) -> (launch: Launch)
    ensures
        launch@ == idct_8x8_wide_launch(input, output, num_blocks),
{
    let launch: Launch = Launch {
        kernel: Kernel::Idct8x8Wide,
        grid: spread_over(num_blocks, 64),
        arrays: vec![
            word_array(input, num_blocks as u64 * 64),
            word_array(output, num_blocks as u64 * 64),
        ],
        scalars: Vec::new(),
    };
    assert(launch@.arrays =~= idct_8x8_wide_launch(input, output, num_blocks).arrays);
    assert(launch@.scalars =~= idct_8x8_wide_launch(input, output, num_blocks).scalars);
    launch
}

/// The launch that [`idct_8x8_coop`] describes.
pub open spec fn idct_8x8_coop_launch(
    input: Handle,
    output: Handle,
    num_blocks: u32,
) -> LaunchSpec {
    LaunchSpec {
        kernel: Kernel::Idct8x8Coop,
        grid: cube_each(num_blocks, 8),
        arrays: seq![
            words(input, num_blocks * 64),
            words(output, num_blocks * 64),
        ],
        scalars: seq![],
    }
}

/// The inverse DCT of `num_blocks` 8x8 blocks, eight threads to a block.
pub fn idct_8x8_coop(
    input: Handle,
    output: Handle,
    num_blocks: u32,
) -> (launch: Launch)
    ensures
        launch@ == idct_8x8_coop_launch(input, output, num_blocks),
{
    let launch: Launch = Launch {
        kernel: Kernel::Idct8x8Coop,
        grid: one_cube_each(num_blocks, 8),
        arrays: vec![
            word_array(input, num_blocks as u64 * 64),
            word_array(output, num_blocks as u64 * 64),
        ],
        scalars: Vec::new(),
    };
    assert(launch@.arrays =~= idct_8x8_coop_launch(input, output, num_blocks).arrays);
    assert(launch@.scalars =~= idct_8x8_coop_launch(input, output, num_blocks).scalars);
    launch
}

/// The launch that [`idct_8x8_set_dc_scatter`] describes.
pub open spec fn idct_8x8_set_dc_scatter_launch(
    input: Handle,
    dc_grid: Handle,
    coords: Handle,
    plane: Handle,
    plane_n_pixels: u64,
    plane_width: u32,
    dc_grid_len: u64,
    dc_stride: u32,
    n_blocks: u32,
) -> LaunchSpec {
    LaunchSpec {
        kernel: Kernel::Idct8x8SetDcScatter,
        grid: cube_each(n_blocks, 1),
        arrays: seq![
            words(input, n_blocks * 64),
            words(dc_grid, dc_grid_len as int),
            words(coords, n_blocks * 2),
            words(plane, plane_n_pixels as int),
        ],
        scalars: seq![
            Scalar::U32(plane_width),
            Scalar::U32(dc_stride),
            Scalar::U32(n_blocks),
        ],
    }
}

/// The inverse DCT of 8x8 blocks whose first coefficients come from a grid,
/// written to their places in a plane.
pub fn idct_8x8_set_dc_scatter(
    input: Handle,
    dc_grid: Handle,
    coords: Handle,
    plane: Handle,
    plane_n_pixels: u64,
    plane_width: u32,
    dc_grid_len: u64,
    dc_stride: u32,
    n_blocks: u32,
) -> (launch: Launch)
    ensures
        launch@ == idct_8x8_set_dc_scatter_launch(
            input,
            dc_grid,
            coords,
            plane,
            plane_n_pixels,
            plane_width,
            dc_grid_len,
            dc_stride,
            n_blocks,
        ),
{
    let launch: Launch = Launch {
        kernel: Kernel::Idct8x8SetDcScatter,
        grid: one_cube_each(n_blocks, 1),
        arrays: vec![
            word_array(input, n_blocks as u64 * 64),
            word_array(dc_grid, dc_grid_len),
            word_array(coords, n_blocks as u64 * 2),
            word_array(plane, plane_n_pixels),
        ],
        scalars: vec![
            Scalar::U32(plane_width),
            Scalar::U32(dc_stride),
            Scalar::U32(n_blocks),
        ],
    };
    assert(
        launch@.arrays =~= idct_8x8_set_dc_scatter_launch(
            input,
            dc_grid,
            coords,
            plane,
            plane_n_pixels,
            plane_width,
            dc_grid_len,
            dc_stride,
            n_blocks,
        ).arrays
    );
    assert(
        launch@.scalars =~= idct_8x8_set_dc_scatter_launch(
            input,
            dc_grid,
            coords,
            plane,
            plane_n_pixels,
            plane_width,
            dc_grid_len,
            dc_stride,
            n_blocks,
        ).scalars
    );
    launch
}

/// The launch that [`dequant_idct_dc_scatter_dct8`] describes.
pub open spec fn dequant_idct_dc_scatter_dct8_launch(
    quant: Handle,
    weights: Handle,
    qac: Handle,
    dc_grid: Handle,
    coords: Handle,
    plane: Handle,
    plane_n_pixels: u64,
    plane_width: u32,
    dc_grid_len: u64,
    dc_stride: u32,
    n_blocks: u32,
    channel_bias: Float32,
) -> LaunchSpec {
    LaunchSpec {
        kernel: Kernel::DequantIdctDcScatterDct8,
        grid: cube_each(n_blocks, 1),
        arrays: seq![
            words(quant, n_blocks * 64),
            words(weights, 64),
            words(qac, n_blocks as int),
            words(dc_grid, dc_grid_len as int),
            words(coords, n_blocks * 2),
            words(plane, plane_n_pixels as int),
        ],
        scalars: seq![
            Scalar::U32(plane_width),
            Scalar::U32(dc_stride),
            Scalar::U32(n_blocks),
            Scalar::F32(channel_bias),
        ],
    }
}

/// Dequantizes 8x8 blocks, takes their first coefficients from a grid,
/// transforms them back and writes them to their places in a plane, one thread
/// to a cube.
pub fn dequant_idct_dc_scatter_dct8(
    quant: Handle,
    weights: Handle,
    qac: Handle,
    dc_grid: Handle,
    coords: Handle,
    plane: Handle,
    plane_n_pixels: u64,
    plane_width: u32,
    dc_grid_len: u64,
    dc_stride: u32,
    n_blocks: u32,
    channel_bias: Float32,
) -> (launch: Launch)
    ensures
        launch@ == dequant_idct_dc_scatter_dct8_launch(
            quant,
            weights,
            qac,
            dc_grid,
            coords,
            plane,
            plane_n_pixels,
            plane_width,
            dc_grid_len,
            dc_stride,
            n_blocks,
            channel_bias,
        ),
{
    let launch: Launch = Launch {
        kernel: Kernel::DequantIdctDcScatterDct8,
        grid: one_cube_each(n_blocks, 1),
        arrays: vec![
            word_array(quant, n_blocks as u64 * 64),
            word_array(weights, 64),
            word_array(qac, n_blocks as u64),
            word_array(dc_grid, dc_grid_len),
            word_array(coords, n_blocks as u64 * 2),
            word_array(plane, plane_n_pixels),
        ],
        scalars: vec![
            Scalar::U32(plane_width),
            Scalar::U32(dc_stride),
            Scalar::U32(n_blocks),
            Scalar::F32(channel_bias),
        ],
    };
    assert(
        launch@.arrays =~= dequant_idct_dc_scatter_dct8_launch(
            quant,
            weights,
            qac,
            dc_grid,
            coords,
            plane,
            plane_n_pixels,
            plane_width,
            dc_grid_len,
            dc_stride,
            n_blocks,
            channel_bias,
        ).arrays
    );
    assert(
        launch@.scalars =~= dequant_idct_dc_scatter_dct8_launch(
            quant,
            weights,
            qac,
            dc_grid,
            coords,
            plane,
            plane_n_pixels,
            plane_width,
            dc_grid_len,
            dc_stride,
            n_blocks,
            channel_bias,
        ).scalars
    );
    launch
}

/// The launch that [`dequant_idct_dc_scatter_dct8_wide`] describes.
pub open spec fn dequant_idct_dc_scatter_dct8_wide_launch(
    quant: Handle,
    weights: Handle,
    qac: Handle,
    dc_grid: Handle,
    coords: Handle,
    plane: Handle,
    plane_n_pixels: u64,
    plane_width: u32,
    dc_grid_len: u64,
    dc_stride: u32,
    n_blocks: u32,
    channel_bias: Float32,
) -> LaunchSpec {
    LaunchSpec {
        kernel: Kernel::DequantIdctDcScatterDct8Wide,
        grid: spread(n_blocks as int, 64),
        arrays: seq![
            words(quant, n_blocks * 64),
            words(weights, 64),
            words(qac, n_blocks as int),
            words(dc_grid, dc_grid_len as int),
            words(coords, n_blocks * 2),
            words(plane, plane_n_pixels as int),
        ],
        scalars: seq![
            Scalar::U32(plane_width),
            Scalar::U32(dc_stride),
            Scalar::U32(n_blocks),
            Scalar::F32(channel_bias),
        ],
    }
}

/// Dequantizes 8x8 blocks, takes their first coefficients from a grid,
/// transforms them back and writes them to their places in a plane, sixty-four
/// threads to a cube.
pub fn dequant_idct_dc_scatter_dct8_wide(
    quant: Handle,
    weights: Handle,
    qac: Handle,
    dc_grid: Handle,
    coords: Handle,
    plane: Handle,
    plane_n_pixels: u64,
    plane_width: u32,
    dc_grid_len: u64,
    dc_stride: u32,
    n_blocks: u32,
    channel_bias: Float32,
) -> (launch: Launch)
    ensures
        launch@ == dequant_idct_dc_scatter_dct8_wide_launch(
            quant,
            weights,
            qac,
            dc_grid,
            coords,
            plane,
            plane_n_pixels,
            plane_width,
            dc_grid_len,
            dc_stride,
            n_blocks,
            channel_bias,
        ),
{
    let launch: Launch = Launch {
        kernel: Kernel::DequantIdctDcScatterDct8Wide,
        grid: spread_over(n_blocks, 64),
        arrays: vec![
            word_array(quant, n_blocks as u64 * 64),
            word_array(weights, 64),
            word_array(qac, n_blocks as u64),
            word_array(dc_grid, dc_grid_len),
            word_array(coords, n_blocks as u64 * 2),
            word_array(plane, plane_n_pixels),
        ],
        scalars: vec![
            Scalar::U32(plane_width),
            Scalar::U32(dc_stride),
            Scalar::U32(n_blocks),
            Scalar::F32(channel_bias),
        ],
    };
    assert(
        launch@.arrays =~= dequant_idct_dc_scatter_dct8_wide_launch(
            quant,
            weights,
            qac,
            dc_grid,
            coords,
            plane,
            plane_n_pixels,
            plane_width,
            dc_grid_len,
            dc_stride,
            n_blocks,
            channel_bias,
        ).arrays
    );
    assert(
        launch@.scalars =~= dequant_idct_dc_scatter_dct8_wide_launch(
            quant,
            weights,
            qac,
            dc_grid,
            coords,
            plane,
            plane_n_pixels,
            plane_width,
            dc_grid_len,
            dc_stride,
            n_blocks,
            channel_bias,
        ).scalars
    );
    launch
}

} // verus!

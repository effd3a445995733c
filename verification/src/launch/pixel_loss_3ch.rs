//! Launch for the pixel loss of three channels.

use crate::device::{
    double_array, doubles, spread, spread_over, word_array, words, Handle, Kernel, Launch,
    LaunchSpec, Scalar,
};
use crate::float::Float32;
use vstd::prelude::*;

verus! {

/// The launch that [`pixel_loss_3ch`] describes.
pub open spec fn pixel_loss_3ch_launch(
    pixel_error_x: Handle,
    pixel_error_y: Handle,
    pixel_error_b: Handle,
    mask: Handle,
    mask_row_base: Handle,
    output_x: Handle,
    output_y: Handle,
    output_b: Handle,
    err_floats: u64,
    mask_floats: u64,
    n_blocks: u32,
    mask_stride: u32,
    mask_offset_x: Float32,
    mask_offset_y: Float32,
    mask_offset_b: Float32,
    block_width: u32,
    block_height: u32,
) -> LaunchSpec {
    LaunchSpec {
        kernel: Kernel::PixelLoss3ch,
        grid: spread(n_blocks as int, 64),
        arrays: seq![
            words(pixel_error_x, err_floats as int),
            words(pixel_error_y, err_floats as int),
            words(pixel_error_b, err_floats as int),
            words(mask, mask_floats as int),
            words(mask_row_base, n_blocks as int),
            doubles(output_x, n_blocks as int),
            doubles(output_y, n_blocks as int),
            doubles(output_b, n_blocks as int),
        ],
        scalars: seq![
            Scalar::U32(mask_stride),
            Scalar::F32(mask_offset_x),
            Scalar::F32(mask_offset_y),
            Scalar::F32(mask_offset_b),
            Scalar::U32(block_width),
            Scalar::U32(block_height),
        ],
    }
}

/// The masked eighth-power pixel loss of each block over three channels at
/// once, in double precision.
pub fn pixel_loss_3ch(
    pixel_error_x: Handle,
    pixel_error_y: Handle,
    pixel_error_b: Handle,
    mask: Handle,
    mask_row_base: Handle,
    output_x: Handle,
    output_y: Handle,
    output_b: Handle,
    err_floats: u64,
    mask_floats: u64,
    n_blocks: u32,
    mask_stride: u32,
    mask_offset_x: Float32,
    mask_offset_y: Float32,
    mask_offset_b: Float32,
    block_width: u32,
    block_height: u32,
) -> (launch: Launch)
    ensures
        launch@ == pixel_loss_3ch_launch(
            pixel_error_x,
            pixel_error_y,
            pixel_error_b,
            mask,
            mask_row_base,
            output_x,
            output_y,
            output_b,
            err_floats,
            mask_floats,
            n_blocks,
            mask_stride,
            mask_offset_x,
            mask_offset_y,
            mask_offset_b,
            block_width,
            block_height,
        ),
{
    let launch: Launch = Launch {
        kernel: Kernel::PixelLoss3ch,
        grid: spread_over(n_blocks, 64),
        arrays: vec![
            word_array(pixel_error_x, err_floats),
            word_array(pixel_error_y, err_floats),
            word_array(pixel_error_b, err_floats),
            word_array(mask, mask_floats),
            word_array(mask_row_base, n_blocks as u64),
            double_array(output_x, n_blocks as u64),
            double_array(output_y, n_blocks as u64),
            double_array(output_b, n_blocks as u64),
        ],
        scalars: vec![
            Scalar::U32(mask_stride),
            Scalar::F32(mask_offset_x),
            Scalar::F32(mask_offset_y),
            Scalar::F32(mask_offset_b),
            Scalar::U32(block_width),
            Scalar::U32(block_height),
        ],
    };
    assert(
        launch@.arrays =~= pixel_loss_3ch_launch(
            pixel_error_x,
            pixel_error_y,
            pixel_error_b,
            mask,
            mask_row_base,
            output_x,
            output_y,
            output_b,
            err_floats,
            mask_floats,
            n_blocks,
            mask_stride,
            mask_offset_x,
            mask_offset_y,
            mask_offset_b,
            block_width,
            block_height,
        ).arrays
    );
    assert(
        launch@.scalars =~= pixel_loss_3ch_launch(
            pixel_error_x,
            pixel_error_y,
            pixel_error_b,
            mask,
            mask_row_base,
            output_x,
            output_y,
            output_b,
            err_floats,
            mask_floats,
            n_blocks,
            mask_stride,
            mask_offset_x,
            mask_offset_y,
            mask_offset_b,
            block_width,
            block_height,
        ).scalars
    );
    launch
}

} // verus!

//! Launch for the pixel loss of blocks.

use crate::device::{
    area, cube_each, double_array, doubles, one_cube_each, word_array, words, Handle, Kernel,
    Launch, LaunchSpec, Scalar,
};
use crate::float::Float32;
use vstd::prelude::*;

verus! {

/// The launch that [`pixel_loss`] describes.
pub open spec fn pixel_loss_launch(
    pixel_error: Handle,
    mask: Handle,
    mask_row_base: Handle,
    output: Handle,
    num_blocks: u32,
    mask_len: u64,
    mask_stride: u32,
    mask_offset: Float32,
    block_width: u32,
    block_height: u32,
) -> LaunchSpec {
    LaunchSpec {
        kernel: Kernel::PixelLoss,
        grid: cube_each(num_blocks, 1),
        arrays: seq![
            words(pixel_error, num_blocks * block_width * block_height),
            words(mask, mask_len as int),
            words(mask_row_base, num_blocks as int),
            doubles(output, num_blocks as int),
        ],
        scalars: seq![
            Scalar::U32(mask_stride),
            Scalar::F32(mask_offset),
            Scalar::U32(block_width),
            Scalar::U32(block_height),
        ],
    }
}

/// The masked eighth-power pixel loss of each block, in double precision.
pub fn pixel_loss(
    pixel_error: Handle,
    mask: Handle,
    mask_row_base: Handle,
    output: Handle,
    num_blocks: u32,
    mask_len: u64,
    mask_stride: u32,
    mask_offset: Float32,
    block_width: u32,
    block_height: u32,
) -> (launch: Launch)
    requires
        num_blocks * block_width * block_height <= u64::MAX,
    ensures
        launch@ == pixel_loss_launch(
            pixel_error,
            mask,
            mask_row_base,
            output,
            num_blocks,
            mask_len,
            mask_stride,
            mask_offset,
            block_width,
            block_height,
        ),
{
    let n: u64 = area(num_blocks, block_width) * block_height as u64;
    let launch: Launch = Launch {
        kernel: Kernel::PixelLoss,
        grid: one_cube_each(num_blocks, 1),
        arrays: vec![
            word_array(pixel_error, n),
            word_array(mask, mask_len),
            word_array(mask_row_base, num_blocks as u64),
            double_array(output, num_blocks as u64),
        ],
        scalars: vec![
            Scalar::U32(mask_stride),
            Scalar::F32(mask_offset),
            Scalar::U32(block_width),
            Scalar::U32(block_height),
        ],
    };
    assert(
        launch@.arrays =~= pixel_loss_launch(
            pixel_error,
            mask,
            mask_row_base,
            output,
            num_blocks,
            mask_len,
            mask_stride,
            mask_offset,
            block_width,
            block_height,
        ).arrays
    );
    assert(
        launch@.scalars =~= pixel_loss_launch(
            pixel_error,
            mask,
            mask_row_base,
            output,
            num_blocks,
            mask_len,
            mask_stride,
            mask_offset,
            block_width,
            block_height,
        ).scalars
    );
    launch
}

} // verus!

//! Launch for the squared error of blocks.

use crate::device::{
    area, cube_each, one_cube_each, word_array, words, Handle, Kernel, Launch, LaunchSpec, Scalar,
};
use vstd::prelude::*;

verus! {

/// The launch that [`block_l2`] describes.
pub open spec fn block_l2_launch(
    orig_x: Handle,
    orig_y: Handle,
    orig_b: Handle,
    recon_x: Handle,
    recon_y: Handle,
    recon_b: Handle,
    mask1x1: Handle,
    output: Handle,
    xsize_blocks: u32,
    ysize_blocks: u32,
    padded_width: u32,
) -> LaunchSpec {
    LaunchSpec {
        kernel: Kernel::BlockL2,
        grid: cube_each((xsize_blocks * ysize_blocks) as u32, 1),
        arrays: seq![
            words(orig_x, padded_width * ysize_blocks * 8),
            words(orig_y, padded_width * ysize_blocks * 8),
            words(orig_b, padded_width * ysize_blocks * 8),
            words(recon_x, padded_width * ysize_blocks * 8),
            words(recon_y, padded_width * ysize_blocks * 8),
            words(recon_b, padded_width * ysize_blocks * 8),
            words(mask1x1, padded_width * ysize_blocks * 8),
            words(output, xsize_blocks * ysize_blocks),
        ],
        scalars: seq![
            Scalar::U32(xsize_blocks),
            Scalar::U32(padded_width),
        ],
    }
}

/// The masked squared error of each 8x8 block over three channels.
pub fn block_l2(
    orig_x: Handle,
    orig_y: Handle,
    orig_b: Handle,
    recon_x: Handle,
    recon_y: Handle,
    recon_b: Handle,
    mask1x1: Handle,
    output: Handle,
    xsize_blocks: u32,
    ysize_blocks: u32,
    padded_width: u32,
) -> (launch: Launch)
    requires
        xsize_blocks * ysize_blocks <= u32::MAX,
        padded_width * ysize_blocks * 8 <= u64::MAX,
    ensures
        launch@ == block_l2_launch(
            orig_x,
            orig_y,
            orig_b,
            recon_x,
            recon_y,
            recon_b,
            mask1x1,
            output,
            xsize_blocks,
            ysize_blocks,
            padded_width,
        ),
{
    let pixels: u64 = area(padded_width, ysize_blocks) * 8;
    let launch: Launch = Launch {
        kernel: Kernel::BlockL2,
        grid: one_cube_each(xsize_blocks * ysize_blocks, 1),
        arrays: vec![
            word_array(orig_x, pixels),
            word_array(orig_y, pixels),
            word_array(orig_b, pixels),
            word_array(recon_x, pixels),
            word_array(recon_y, pixels),
            word_array(recon_b, pixels),
            word_array(mask1x1, pixels),
            word_array(output, area(xsize_blocks, ysize_blocks)),
        ],
        scalars: vec![
            Scalar::U32(xsize_blocks),
            Scalar::U32(padded_width),
        ],
    };
    assert(
        launch@.arrays =~= block_l2_launch(
            orig_x,
            orig_y,
            orig_b,
            recon_x,
            recon_y,
            recon_b,
            mask1x1,
            output,
            xsize_blocks,
            ysize_blocks,
            padded_width,
        ).arrays
    );
    assert(
        launch@.scalars =~= block_l2_launch(
            orig_x,
            orig_y,
            orig_b,
            recon_x,
            recon_y,
            recon_b,
            mask1x1,
            output,
            xsize_blocks,
            ysize_blocks,
            padded_width,
        ).scalars
    );
    launch
}

} // verus!

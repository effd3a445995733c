//! Launches that gather blocks from planes and scatter them back.

use crate::device::{
    spread, spread_over, word_array, words, Handle, Kernel, Launch, LaunchSpec, Scalar,
};
use vstd::prelude::*;

verus! {

/// The launch that [`gather_blocks`] describes.
pub open spec fn gather_blocks_launch(
    plane: Handle,
    output: Handle,
    plane_n: u64,
    output_n: u64,
    width: u32,
    blocks_per_row: u32,
    tile_w: u32,
    tile_h: u32,
) -> LaunchSpec {
    LaunchSpec {
        kernel: Kernel::GatherBlocks,
        grid: spread(output_n as u32 as int, 256),
        arrays: seq![
            words(plane, plane_n as int),
            words(output, output_n as int),
        ],
        scalars: seq![
            Scalar::U32(width),
            Scalar::U32(blocks_per_row),
            Scalar::U32(tile_w),
            Scalar::U32(tile_h),
            Scalar::U32(output_n as u32),
        ],
    }
}

/// Gathers the blocks of a plane, one after the other.
pub fn gather_blocks(
    plane: Handle,
    output: Handle,
    plane_n: u64,
    output_n: u64,
    width: u32,
    blocks_per_row: u32,
    tile_w: u32,
    tile_h: u32,
) -> (launch: Launch)
    ensures
        launch@ == gather_blocks_launch(
            plane,
            output,
            plane_n,
            output_n,
            width,
            blocks_per_row,
            tile_w,
            tile_h,
        ),
{
    let launch: Launch = Launch {
        kernel: Kernel::GatherBlocks,
        grid: spread_over(output_n as u32, 256),
        arrays: vec![
            word_array(plane, plane_n),
            word_array(output, output_n),
        ],
        scalars: vec![
            Scalar::U32(width),
            Scalar::U32(blocks_per_row),
            Scalar::U32(tile_w),
            Scalar::U32(tile_h),
            Scalar::U32(output_n as u32),
        ],
    };
    assert(
        launch@.arrays =~= gather_blocks_launch(
            plane,
            output,
            plane_n,
            output_n,
            width,
            blocks_per_row,
            tile_w,
            tile_h,
        ).arrays
    );
    assert(
        launch@.scalars =~= gather_blocks_launch(
            plane,
            output,
            plane_n,
            output_n,
            width,
            blocks_per_row,
            tile_w,
            tile_h,
        ).scalars
    );
    launch
}

/// The launch that [`scatter_blocks`] describes.
pub open spec fn scatter_blocks_launch(
    blocks: Handle,
    plane: Handle,
    blocks_n: u64,
    plane_n: u64,
    width: u32,
    blocks_per_row: u32,
    tile_w: u32,
    tile_h: u32,
) -> LaunchSpec {
    LaunchSpec {
        kernel: Kernel::ScatterBlocks,
        grid: spread(blocks_n as u32 as int, 256),
        arrays: seq![
            words(blocks, blocks_n as int),
            words(plane, plane_n as int),
        ],
        scalars: seq![
            Scalar::U32(width),
            Scalar::U32(blocks_per_row),
            Scalar::U32(tile_w),
            Scalar::U32(tile_h),
            Scalar::U32(blocks_n as u32),
        ],
    }
}

/// Scatters blocks to their places in a plane.
pub fn scatter_blocks(
    blocks: Handle,
    plane: Handle,
    blocks_n: u64,
    plane_n: u64,
    width: u32,
    blocks_per_row: u32,
    tile_w: u32,
    tile_h: u32,
) -> (launch: Launch)
    ensures
        launch@ == scatter_blocks_launch(
            blocks,
            plane,
            blocks_n,
            plane_n,
            width,
            blocks_per_row,
            tile_w,
            tile_h,
        ),
{
    let launch: Launch = Launch {
        kernel: Kernel::ScatterBlocks,
        grid: spread_over(blocks_n as u32, 256),
        arrays: vec![
            word_array(blocks, blocks_n),
            word_array(plane, plane_n),
        ],
        scalars: vec![
            Scalar::U32(width),
            Scalar::U32(blocks_per_row),
            Scalar::U32(tile_w),
            Scalar::U32(tile_h),
            Scalar::U32(blocks_n as u32),
        ],
    };
    assert(
        launch@.arrays =~= scatter_blocks_launch(
            blocks,
            plane,
            blocks_n,
            plane_n,
            width,
            blocks_per_row,
            tile_w,
            tile_h,
        ).arrays
    );
    assert(
        launch@.scalars =~= scatter_blocks_launch(
            blocks,
            plane,
            blocks_n,
            plane_n,
            width,
            blocks_per_row,
            tile_w,
            tile_h,
        ).scalars
    );
    launch
}

} // verus!

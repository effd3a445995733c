//! Launch that gathers listed blocks.

use crate::device::{
    spread, spread_over, word_array, words, Handle, Kernel, Launch, LaunchSpec, Scalar,
};
use vstd::prelude::*;

verus! {

/// The launch that [`indexed_gather`] describes.
pub open spec fn indexed_gather_launch(
    plane: Handle,
    coords: Handle,
    output: Handle,
    plane_width: u32,
    plane_n_pixels: u64,
    n_blocks: u32,
    tile_w: u32,
    tile_h: u32,
) -> LaunchSpec {
    LaunchSpec {
        kernel: Kernel::IndexedGather,
        grid: spread(n_blocks * tile_w * tile_h, 256),
        arrays: seq![
            words(plane, plane_n_pixels as int),
            words(coords, n_blocks * 2),
            words(output, n_blocks * tile_w * tile_h),
        ],
        scalars: seq![
            Scalar::U32(plane_width),
            Scalar::U32(tile_w),
            Scalar::U32(tile_h),
            Scalar::U32((n_blocks * tile_w * tile_h) as u32),
        ],
    }
}

/// Gathers the blocks of a plane whose block coordinates are listed.
pub fn indexed_gather(
    plane: Handle,
    coords: Handle,
    output: Handle,
    plane_width: u32,
    plane_n_pixels: u64,
    n_blocks: u32,
    tile_w: u32,
    tile_h: u32,
) -> (launch: Launch)
    requires
        n_blocks * tile_w <= u32::MAX,
        n_blocks * tile_w * tile_h <= u32::MAX,
    ensures
        launch@ == indexed_gather_launch(
            plane,
            coords,
            output,
            plane_width,
            plane_n_pixels,
            n_blocks,
            tile_w,
            tile_h,
        ),
{
    let total: u32 = n_blocks * tile_w * tile_h;
    let launch: Launch = Launch {
        kernel: Kernel::IndexedGather,
        grid: spread_over(total, 256),
        arrays: vec![
            word_array(plane, plane_n_pixels),
            word_array(coords, n_blocks as u64 * 2),
            word_array(output, total as u64),
        ],
        scalars: vec![
            Scalar::U32(plane_width),
            Scalar::U32(tile_w),
            Scalar::U32(tile_h),
            Scalar::U32((n_blocks * tile_w * tile_h) as u32),
        ],
    };
    assert(
        launch@.arrays =~= indexed_gather_launch(
            plane,
            coords,
            output,
            plane_width,
            plane_n_pixels,
            n_blocks,
            tile_w,
            tile_h,
        ).arrays
    );
    assert(
        launch@.scalars =~= indexed_gather_launch(
            plane,
            coords,
            output,
            plane_width,
            plane_n_pixels,
            n_blocks,
            tile_w,
            tile_h,
        ).scalars
    );
    launch
}

} // verus!

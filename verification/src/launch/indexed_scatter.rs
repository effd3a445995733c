//! Launch that scatters listed blocks.

use crate::device::{word_array, words, Grid, Handle, Kernel, Launch, LaunchSpec, Scalar};
use vstd::prelude::*;

verus! {

/// The launch that [`indexed_scatter`] describes.
pub open spec fn indexed_scatter_launch(
    blocks: Handle,
    coords: Handle,
    plane: Handle,
    plane_width: u32,
    plane_n_pixels: u64,
    n_blocks: u32,
    tile_w: u32,
    tile_h: u32,
) -> LaunchSpec {
    LaunchSpec {
        kernel: Kernel::IndexedScatter,
        grid: Grid::Items { count: (n_blocks * tile_w * tile_h) as u32 },
        arrays: seq![
            words(blocks, n_blocks * tile_w * tile_h),
            words(coords, n_blocks * 2),
            words(plane, plane_n_pixels as int),
        ],
        scalars: seq![
            Scalar::U32(plane_width),
            Scalar::U32(tile_w),
            Scalar::U32(tile_h),
            Scalar::U32((n_blocks * tile_w * tile_h) as u32),
        ],
    }
}

/// Scatters blocks to the places in a plane whose block coordinates are listed.
pub fn indexed_scatter(
    blocks: Handle,
    coords: Handle,
    plane: Handle,
    plane_width: u32,
    plane_n_pixels: u64,
    n_blocks: u32,
    tile_w: u32,
    tile_h: u32,
) -> (launch: Launch)
    requires
        n_blocks * tile_w <= u32::MAX,
        n_blocks * tile_w * tile_h <= u32::MAX,
    ensures
        launch@ == indexed_scatter_launch(
            blocks,
            coords,
            plane,
            plane_width,
            plane_n_pixels,
            n_blocks,
            tile_w,
            tile_h,
        ),
{
    let total: u32 = n_blocks * tile_w * tile_h;
    let launch: Launch = Launch {
        kernel: Kernel::IndexedScatter,
        grid: Grid::Items { count: total },
        arrays: vec![
            word_array(blocks, total as u64),
            word_array(coords, n_blocks as u64 * 2),
            word_array(plane, plane_n_pixels),
        ],
        scalars: vec![
            Scalar::U32(plane_width),
            Scalar::U32(tile_w),
            Scalar::U32(tile_h),
            Scalar::U32((n_blocks * tile_w * tile_h) as u32),
        ],
    };
    assert(
        launch@.arrays =~= indexed_scatter_launch(
            blocks,
            coords,
            plane,
            plane_width,
            plane_n_pixels,
            n_blocks,
            tile_w,
            tile_h,
        ).arrays
    );
    assert(
        launch@.scalars =~= indexed_scatter_launch(
            blocks,
            coords,
            plane,
            plane_width,
            plane_n_pixels,
            n_blocks,
            tile_w,
            tile_h,
        ).scalars
    );
    launch
}

} // verus!

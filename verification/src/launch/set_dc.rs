//! Launch that sets first coefficients.

use crate::device::{word_array, words, Grid, Handle, Kernel, Launch, LaunchSpec, Scalar};
use vstd::prelude::*;

verus! {

/// The launch that [`set_dc_from_grid_indexed`] describes.
pub open spec fn set_dc_from_grid_indexed_launch(
    dc_grid: Handle,
    coords: Handle,
    dst: Handle,
    dc_grid_n: u64,
    dst_n: u64,
    dc_stride: u32,
    coeffs_per_block: u32,
    n_blocks: u32,
) -> LaunchSpec {
    LaunchSpec {
        kernel: Kernel::SetDcFromGridIndexed,
        grid: Grid::Items { count: n_blocks },
        arrays: seq![
            words(dc_grid, dc_grid_n as int),
            words(coords, n_blocks * 2),
            words(dst, dst_n as int),
        ],
        scalars: seq![
            Scalar::U32(dc_stride),
            Scalar::U32(coeffs_per_block),
            Scalar::U32(n_blocks),
        ],
    }
}

/// Sets the first coefficient of each listed block from a grid.
pub fn set_dc_from_grid_indexed(
    dc_grid: Handle,
    coords: Handle,
    dst: Handle,
    dc_grid_n: u64,
    dst_n: u64,
    dc_stride: u32,
    coeffs_per_block: u32,
    n_blocks: u32,
) -> (launch: Launch)
    ensures
        launch@ == set_dc_from_grid_indexed_launch(
            dc_grid,
            coords,
            dst,
            dc_grid_n,
            dst_n,
            dc_stride,
            coeffs_per_block,
            n_blocks,
        ),
{
    let launch: Launch = Launch {
        kernel: Kernel::SetDcFromGridIndexed,
        grid: Grid::Items { count: n_blocks },
        arrays: vec![
            word_array(dc_grid, dc_grid_n),
            word_array(coords, n_blocks as u64 * 2),
            word_array(dst, dst_n),
        ],
        scalars: vec![
            Scalar::U32(dc_stride),
            Scalar::U32(coeffs_per_block),
            Scalar::U32(n_blocks),
        ],
    };
    assert(
        launch@.arrays =~= set_dc_from_grid_indexed_launch(
            dc_grid,
            coords,
            dst,
            dc_grid_n,
            dst_n,
            dc_stride,
            coeffs_per_block,
            n_blocks,
        ).arrays
    );
    assert(
        launch@.scalars =~= set_dc_from_grid_indexed_launch(
            dc_grid,
            coords,
            dst,
            dc_grid_n,
            dst_n,
            dc_stride,
            coeffs_per_block,
            n_blocks,
        ).scalars
    );
    launch
}

} // verus!

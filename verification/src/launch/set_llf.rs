//! Launches that set the lowest coefficients of blocks.

use crate::device::{
    spread, spread_over, word_array, words, Grid, Handle, Kernel, Launch, LaunchSpec, Scalar,
};
use vstd::prelude::*;

verus! {

/// The launch that [`set_llf_dct16x16_indexed`] describes.
pub open spec fn set_llf_dct16x16_indexed_launch(
    dc_grid: Handle,
    coords: Handle,
    dst: Handle,
    dc_grid_n: u64,
    dst_n: u64,
    dc_stride: u32,
    coeffs_per_block: u32,
    n_blocks: u32,
) -> LaunchSpec {
    LaunchSpec {
        kernel: Kernel::SetLlfDct16x16Indexed,
        grid: spread(n_blocks as int, 256),
        arrays: seq![
            words(dc_grid, dc_grid_n as int),
            words(coords, n_blocks * 2),
            words(dst, dst_n as int),
        ],
        scalars: seq![
            Scalar::U32(dc_stride),
            Scalar::U32(coeffs_per_block),
            Scalar::U32(n_blocks),
        ],
    }
}

/// Sets the lowest coefficients of listed DCT16x16 blocks from a grid of means.
pub fn set_llf_dct16x16_indexed(
    dc_grid: Handle,
    coords: Handle,
    dst: Handle,
    dc_grid_n: u64,
    dst_n: u64,
    dc_stride: u32,
    coeffs_per_block: u32,
    n_blocks: u32,
) -> (launch: Launch)
    ensures
        launch@ == set_llf_dct16x16_indexed_launch(
            dc_grid,
            coords,
            dst,
            dc_grid_n,
            dst_n,
            dc_stride,
            coeffs_per_block,
            n_blocks,
        ),
{
    let launch: Launch = Launch {
        kernel: Kernel::SetLlfDct16x16Indexed,
        grid: spread_over(n_blocks, 256),
        arrays: vec![
            word_array(dc_grid, dc_grid_n),
            word_array(coords, n_blocks as u64 * 2),
            word_array(dst, dst_n),
        ],
        scalars: vec![
            Scalar::U32(dc_stride),
            Scalar::U32(coeffs_per_block),
            Scalar::U32(n_blocks),
        ],
    };
    assert(
        launch@.arrays =~= set_llf_dct16x16_indexed_launch(
            dc_grid,
            coords,
            dst,
            dc_grid_n,
            dst_n,
            dc_stride,
            coeffs_per_block,
            n_blocks,
        ).arrays
    );
    assert(
        launch@.scalars =~= set_llf_dct16x16_indexed_launch(
            dc_grid,
            coords,
            dst,
            dc_grid_n,
            dst_n,
            dc_stride,
            coeffs_per_block,
            n_blocks,
        ).scalars
    );
    launch
}

/// The launch that [`set_llf_dct16x8_or_8x16_indexed`] describes.
pub open spec fn set_llf_dct16x8_or_8x16_indexed_launch(
    dc_grid: Handle,
    coords: Handle,
    dst: Handle,
    dc_grid_n: u64,
    dst_n: u64,
    dc_stride: u32,
    dc_step: u32,
    coeffs_per_block: u32,
    n_blocks: u32,
) -> LaunchSpec {
    LaunchSpec {
        kernel: Kernel::SetLlfDct16x8Or8x16Indexed,
        grid: spread(n_blocks as int, 256),
        arrays: seq![
            words(dc_grid, dc_grid_n as int),
            words(coords, n_blocks * 2),
            words(dst, dst_n as int),
        ],
        scalars: seq![
            Scalar::U32(dc_stride),
            Scalar::U32(dc_step),
            Scalar::U32(coeffs_per_block),
            Scalar::U32(n_blocks),
        ],
    }
}

/// Sets the lowest coefficients of listed DCT16x8 or DCT8x16 blocks from a grid
/// of means, `dc_step` apart.
pub fn set_llf_dct16x8_or_8x16_indexed(
    dc_grid: Handle,
    coords: Handle,
    dst: Handle,
    dc_grid_n: u64,
    dst_n: u64,
    dc_stride: u32,
    dc_step: u32,
    coeffs_per_block: u32,
    n_blocks: u32,
) -> (launch: Launch)
    ensures
        launch@ == set_llf_dct16x8_or_8x16_indexed_launch(
            dc_grid,
            coords,
            dst,
            dc_grid_n,
            dst_n,
            dc_stride,
            dc_step,
            coeffs_per_block,
            n_blocks,
        ),
{
    let launch: Launch = Launch {
        kernel: Kernel::SetLlfDct16x8Or8x16Indexed,
        grid: spread_over(n_blocks, 256),
        arrays: vec![
            word_array(dc_grid, dc_grid_n),
            word_array(coords, n_blocks as u64 * 2),
            word_array(dst, dst_n),
        ],
        scalars: vec![
            Scalar::U32(dc_stride),
            Scalar::U32(dc_step),
            Scalar::U32(coeffs_per_block),
            Scalar::U32(n_blocks),
        ],
    };
    assert(
        launch@.arrays =~= set_llf_dct16x8_or_8x16_indexed_launch(
            dc_grid,
            coords,
            dst,
            dc_grid_n,
            dst_n,
            dc_stride,
            dc_step,
            coeffs_per_block,
            n_blocks,
        ).arrays
    );
    assert(
        launch@.scalars =~= set_llf_dct16x8_or_8x16_indexed_launch(
            dc_grid,
            coords,
            dst,
            dc_grid_n,
            dst_n,
            dc_stride,
            dc_step,
            coeffs_per_block,
            n_blocks,
        ).scalars
    );
    launch
}

/// The launch that [`set_llf_dct32x32_indexed`] describes.
pub open spec fn set_llf_dct32x32_indexed_launch(
    dc_grid: Handle,
    coords: Handle,
    dst: Handle,
    dc_grid_n: u64,
    dst_n: u64,
    dc_stride: u32,
    coeffs_per_block: u32,
    n_blocks: u32,
) -> LaunchSpec {
    LaunchSpec {
        kernel: Kernel::SetLlfDct32x32Indexed,
        grid: Grid::Items { count: n_blocks },
        arrays: seq![
            words(dc_grid, dc_grid_n as int),
            words(coords, n_blocks * 2),
            words(dst, dst_n as int),
        ],
        scalars: seq![
            Scalar::U32(dc_stride),
            Scalar::U32(coeffs_per_block),
            Scalar::U32(n_blocks),
        ],
    }
}

/// Sets the lowest coefficients of listed DCT32x32 blocks from a grid of means.
pub fn set_llf_dct32x32_indexed(
    dc_grid: Handle,
    coords: Handle,
    dst: Handle,
    dc_grid_n: u64,
    dst_n: u64,
    dc_stride: u32,
    coeffs_per_block: u32,
    n_blocks: u32,
) -> (launch: Launch)
    ensures
        launch@ == set_llf_dct32x32_indexed_launch(
            dc_grid,
            coords,
            dst,
            dc_grid_n,
            dst_n,
            dc_stride,
            coeffs_per_block,
            n_blocks,
        ),
{
    let launch: Launch = Launch {
        kernel: Kernel::SetLlfDct32x32Indexed,
        grid: Grid::Items { count: n_blocks },
        arrays: vec![
            word_array(dc_grid, dc_grid_n),
            word_array(coords, n_blocks as u64 * 2),
            word_array(dst, dst_n),
        ],
        scalars: vec![
            Scalar::U32(dc_stride),
            Scalar::U32(coeffs_per_block),
            Scalar::U32(n_blocks),
        ],
    };
    assert(
        launch@.arrays =~= set_llf_dct32x32_indexed_launch(
            dc_grid,
            coords,
            dst,
            dc_grid_n,
            dst_n,
            dc_stride,
            coeffs_per_block,
            n_blocks,
        ).arrays
    );
    assert(
        launch@.scalars =~= set_llf_dct32x32_indexed_launch(
            dc_grid,
            coords,
            dst,
            dc_grid_n,
            dst_n,
            dc_stride,
            coeffs_per_block,
            n_blocks,
        ).scalars
    );
    launch
}

/// The launch that [`set_llf_dct32x16_indexed`] describes.
pub open spec fn set_llf_dct32x16_indexed_launch(
    dc_grid: Handle,
    coords: Handle,
    dst: Handle,
    dc_grid_n: u64,
    dst_n: u64,
    dc_stride: u32,
    coeffs_per_block: u32,
    n_blocks: u32,
) -> LaunchSpec {
    LaunchSpec {
        kernel: Kernel::SetLlfDct32x16Indexed,
        grid: Grid::Items { count: n_blocks },
        arrays: seq![
            words(dc_grid, dc_grid_n as int),
            words(coords, n_blocks * 2),
            words(dst, dst_n as int),
        ],
        scalars: seq![
            Scalar::U32(dc_stride),
            Scalar::U32(coeffs_per_block),
            Scalar::U32(n_blocks),
        ],
    }
}

/// Sets the lowest coefficients of listed DCT32x16 blocks from a grid of means.
pub fn set_llf_dct32x16_indexed(
    dc_grid: Handle,
    coords: Handle,
    dst: Handle,
    dc_grid_n: u64,
    dst_n: u64,
    dc_stride: u32,
    coeffs_per_block: u32,
    n_blocks: u32,
) -> (launch: Launch)
    ensures
        launch@ == set_llf_dct32x16_indexed_launch(
            dc_grid,
            coords,
            dst,
            dc_grid_n,
            dst_n,
            dc_stride,
            coeffs_per_block,
            n_blocks,
        ),
{
    let launch: Launch = Launch {
        kernel: Kernel::SetLlfDct32x16Indexed,
        grid: Grid::Items { count: n_blocks },
        arrays: vec![
            word_array(dc_grid, dc_grid_n),
            word_array(coords, n_blocks as u64 * 2),
            word_array(dst, dst_n),
        ],
        scalars: vec![
            Scalar::U32(dc_stride),
            Scalar::U32(coeffs_per_block),
            Scalar::U32(n_blocks),
        ],
    };
    assert(
        launch@.arrays =~= set_llf_dct32x16_indexed_launch(
            dc_grid,
            coords,
            dst,
            dc_grid_n,
            dst_n,
            dc_stride,
            coeffs_per_block,
            n_blocks,
        ).arrays
    );
    assert(
        launch@.scalars =~= set_llf_dct32x16_indexed_launch(
            dc_grid,
            coords,
            dst,
            dc_grid_n,
            dst_n,
            dc_stride,
            coeffs_per_block,
            n_blocks,
        ).scalars
    );
    launch
}

/// The launch that [`set_llf_dct16x32_indexed`] describes.
pub open spec fn set_llf_dct16x32_indexed_launch(
    dc_grid: Handle,
    coords: Handle,
    dst: Handle,
    dc_grid_n: u64,
    dst_n: u64,
    dc_stride: u32,
    coeffs_per_block: u32,
    n_blocks: u32,
) -> LaunchSpec {
    LaunchSpec {
        kernel: Kernel::SetLlfDct16x32Indexed,
        grid: Grid::Items { count: n_blocks },
        arrays: seq![
            words(dc_grid, dc_grid_n as int),
            words(coords, n_blocks * 2),
            words(dst, dst_n as int),
        ],
        scalars: seq![
            Scalar::U32(dc_stride),
            Scalar::U32(coeffs_per_block),
            Scalar::U32(n_blocks),
        ],
    }
}

/// Sets the lowest coefficients of listed DCT16x32 blocks from a grid of means.
pub fn set_llf_dct16x32_indexed(
    dc_grid: Handle,
    coords: Handle,
    dst: Handle,
    dc_grid_n: u64,
    dst_n: u64,
    dc_stride: u32,
    coeffs_per_block: u32,
    n_blocks: u32,
) -> (launch: Launch)
    ensures
        launch@ == set_llf_dct16x32_indexed_launch(
            dc_grid,
            coords,
            dst,
            dc_grid_n,
            dst_n,
            dc_stride,
            coeffs_per_block,
            n_blocks,
        ),
{
    let launch: Launch = Launch {
        kernel: Kernel::SetLlfDct16x32Indexed,
        grid: Grid::Items { count: n_blocks },
        arrays: vec![
            word_array(dc_grid, dc_grid_n),
            word_array(coords, n_blocks as u64 * 2),
            word_array(dst, dst_n),
        ],
        scalars: vec![
            Scalar::U32(dc_stride),
            Scalar::U32(coeffs_per_block),
            Scalar::U32(n_blocks),
        ],
    };
    assert(
        launch@.arrays =~= set_llf_dct16x32_indexed_launch(
            dc_grid,
            coords,
            dst,
            dc_grid_n,
            dst_n,
            dc_stride,
            coeffs_per_block,
            n_blocks,
        ).arrays
    );
    assert(
        launch@.scalars =~= set_llf_dct16x32_indexed_launch(
            dc_grid,
            coords,
            dst,
            dc_grid_n,
            dst_n,
            dc_stride,
            coeffs_per_block,
            n_blocks,
        ).scalars
    );
    launch
}

/// The launch that [`set_llf_dct64x64_indexed`] describes.
pub open spec fn set_llf_dct64x64_indexed_launch(
    dc_grid: Handle,
    coords: Handle,
    dst: Handle,
    dc_grid_n: u64,
    dst_n: u64,
    dc_stride: u32,
    coeffs_per_block: u32,
    n_blocks: u32,
) -> LaunchSpec {
    LaunchSpec {
        kernel: Kernel::SetLlfDct64x64Indexed,
        grid: Grid::Items { count: n_blocks },
        arrays: seq![
            words(dc_grid, dc_grid_n as int),
            words(coords, n_blocks * 2),
            words(dst, dst_n as int),
        ],
        scalars: seq![
            Scalar::U32(dc_stride),
            Scalar::U32(coeffs_per_block),
            Scalar::U32(n_blocks),
        ],
    }
}

/// Sets the lowest coefficients of listed DCT64x64 blocks from a grid of means.
pub fn set_llf_dct64x64_indexed(
    dc_grid: Handle,
    coords: Handle,
    dst: Handle,
    dc_grid_n: u64,
    dst_n: u64,
    dc_stride: u32,
    coeffs_per_block: u32,
    n_blocks: u32,
) -> (launch: Launch)
    ensures
        launch@ == set_llf_dct64x64_indexed_launch(
            dc_grid,
            coords,
            dst,
            dc_grid_n,
            dst_n,
            dc_stride,
            coeffs_per_block,
            n_blocks,
        ),
{
    let launch: Launch = Launch {
        kernel: Kernel::SetLlfDct64x64Indexed,
        grid: Grid::Items { count: n_blocks },
        arrays: vec![
            word_array(dc_grid, dc_grid_n),
            word_array(coords, n_blocks as u64 * 2),
            word_array(dst, dst_n),
        ],
        scalars: vec![
            Scalar::U32(dc_stride),
            Scalar::U32(coeffs_per_block),
            Scalar::U32(n_blocks),
        ],
    };
    assert(
        launch@.arrays =~= set_llf_dct64x64_indexed_launch(
            dc_grid,
            coords,
            dst,
            dc_grid_n,
            dst_n,
            dc_stride,
            coeffs_per_block,
            n_blocks,
        ).arrays
    );
    assert(
        launch@.scalars =~= set_llf_dct64x64_indexed_launch(
            dc_grid,
            coords,
            dst,
            dc_grid_n,
            dst_n,
            dc_stride,
            coeffs_per_block,
            n_blocks,
        ).scalars
    );
    launch
}

/// The launch that [`set_llf_dct64x32_indexed`] describes.
pub open spec fn set_llf_dct64x32_indexed_launch(
    dc_grid: Handle,
    coords: Handle,
    dst: Handle,
    dc_grid_n: u64,
    dst_n: u64,
    dc_stride: u32,
    coeffs_per_block: u32,
    n_blocks: u32,
) -> LaunchSpec {
    LaunchSpec {
        kernel: Kernel::SetLlfDct64x32Indexed,
        grid: Grid::Items { count: n_blocks },
        arrays: seq![
            words(dc_grid, dc_grid_n as int),
            words(coords, n_blocks * 2),
            words(dst, dst_n as int),
        ],
        scalars: seq![
            Scalar::U32(dc_stride),
            Scalar::U32(coeffs_per_block),
            Scalar::U32(n_blocks),
        ],
    }
}

/// Sets the lowest coefficients of listed DCT64x32 blocks from a grid of means.
pub fn set_llf_dct64x32_indexed(
    dc_grid: Handle,
    coords: Handle,
    dst: Handle,
    dc_grid_n: u64,
    dst_n: u64,
    dc_stride: u32,
    coeffs_per_block: u32,
    n_blocks: u32,
) -> (launch: Launch)
    ensures
        launch@ == set_llf_dct64x32_indexed_launch(
            dc_grid,
            coords,
            dst,
            dc_grid_n,
            dst_n,
            dc_stride,
            coeffs_per_block,
            n_blocks,
        ),
{
    let launch: Launch = Launch {
        kernel: Kernel::SetLlfDct64x32Indexed,
        grid: Grid::Items { count: n_blocks },
        arrays: vec![
            word_array(dc_grid, dc_grid_n),
            word_array(coords, n_blocks as u64 * 2),
            word_array(dst, dst_n),
        ],
        scalars: vec![
            Scalar::U32(dc_stride),
            Scalar::U32(coeffs_per_block),
            Scalar::U32(n_blocks),
        ],
    };
    assert(
        launch@.arrays =~= set_llf_dct64x32_indexed_launch(
            dc_grid,
            coords,
            dst,
            dc_grid_n,
            dst_n,
            dc_stride,
            coeffs_per_block,
            n_blocks,
        ).arrays
    );
    assert(
        launch@.scalars =~= set_llf_dct64x32_indexed_launch(
            dc_grid,
            coords,
            dst,
            dc_grid_n,
            dst_n,
            dc_stride,
            coeffs_per_block,
            n_blocks,
        ).scalars
    );
    launch
}

/// The launch that [`set_llf_dct32x64_indexed`] describes.
pub open spec fn set_llf_dct32x64_indexed_launch(
    dc_grid: Handle,
    coords: Handle,
    dst: Handle,
    dc_grid_n: u64,
    dst_n: u64,
    dc_stride: u32,
    coeffs_per_block: u32,
    n_blocks: u32,
) -> LaunchSpec {
    LaunchSpec {
        kernel: Kernel::SetLlfDct32x64Indexed,
        grid: Grid::Items { count: n_blocks },
        arrays: seq![
            words(dc_grid, dc_grid_n as int),
            words(coords, n_blocks * 2),
            words(dst, dst_n as int),
        ],
        scalars: seq![
            Scalar::U32(dc_stride),
            Scalar::U32(coeffs_per_block),
            Scalar::U32(n_blocks),
        ],
    }
}

/// Sets the lowest coefficients of listed DCT32x64 blocks from a grid of means.
pub fn set_llf_dct32x64_indexed(
    dc_grid: Handle,
    coords: Handle,
    dst: Handle,
    dc_grid_n: u64,
    dst_n: u64,
    dc_stride: u32,
    coeffs_per_block: u32,
    n_blocks: u32,
) -> (launch: Launch)
    ensures
        launch@ == set_llf_dct32x64_indexed_launch(
            dc_grid,
            coords,
            dst,
            dc_grid_n,
            dst_n,
            dc_stride,
            coeffs_per_block,
            n_blocks,
        ),
{
    let launch: Launch = Launch {
        kernel: Kernel::SetLlfDct32x64Indexed,
        grid: Grid::Items { count: n_blocks },
        arrays: vec![
            word_array(dc_grid, dc_grid_n),
            word_array(coords, n_blocks as u64 * 2),
            word_array(dst, dst_n),
        ],
        scalars: vec![
            Scalar::U32(dc_stride),
            Scalar::U32(coeffs_per_block),
            Scalar::U32(n_blocks),
        ],
    };
    assert(
        launch@.arrays =~= set_llf_dct32x64_indexed_launch(
            dc_grid,
            coords,
            dst,
            dc_grid_n,
            dst_n,
            dc_stride,
            coeffs_per_block,
            n_blocks,
        ).arrays
    );
    assert(
        launch@.scalars =~= set_llf_dct32x64_indexed_launch(
            dc_grid,
            coords,
            dst,
            dc_grid_n,
            dst_n,
            dc_stride,
            coeffs_per_block,
            n_blocks,
        ).scalars
    );
    launch
}

} // verus!

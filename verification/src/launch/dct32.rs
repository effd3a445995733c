//! Launches for the 32-pixel transforms.

use crate::device::{word_array, words, Grid, Handle, Kernel, Launch, LaunchSpec};
use vstd::prelude::*;

verus! {

/// The launch that [`dct_32x32`] describes.
pub open spec fn dct_32x32_launch(
    input: Handle,
    output: Handle,
    num_blocks: u32,
) -> LaunchSpec {
    LaunchSpec {
        kernel: Kernel::Dct32x32,
        grid: Grid::Items { count: num_blocks },
        arrays: seq![
            words(input, num_blocks * 1024),
            words(output, num_blocks * 1024),
        ],
        scalars: seq![],
    }
}

/// The forward DCT of `num_blocks` blocks of 32x32 pixels.
pub fn dct_32x32(
    input: Handle,
    output: Handle,
    num_blocks: u32,
) -> (launch: Launch)
    ensures
        launch@ == dct_32x32_launch(input, output, num_blocks),
{
    let launch: Launch = Launch {
        kernel: Kernel::Dct32x32,
        grid: Grid::Items { count: num_blocks },
        arrays: vec![
            word_array(input, num_blocks as u64 * 1024),
            word_array(output, num_blocks as u64 * 1024),
        ],
        scalars: Vec::new(),
    };
    assert(launch@.arrays =~= dct_32x32_launch(input, output, num_blocks).arrays);
    assert(launch@.scalars =~= dct_32x32_launch(input, output, num_blocks).scalars);
    launch
}

/// The launch that [`idct_32x32`] describes.
pub open spec fn idct_32x32_launch(
    input: Handle,
    output: Handle,
    num_blocks: u32,
) -> LaunchSpec {
    LaunchSpec {
        kernel: Kernel::Idct32x32,
        grid: Grid::Items { count: num_blocks },
        arrays: seq![
            words(input, num_blocks * 1024),
            words(output, num_blocks * 1024),
        ],
        scalars: seq![],
    }
}

/// The inverse DCT of `num_blocks` blocks of 32x32 pixels.
pub fn idct_32x32(
    input: Handle,
    output: Handle,
    num_blocks: u32,
) -> (launch: Launch)
    ensures
        launch@ == idct_32x32_launch(input, output, num_blocks),
{
    let launch: Launch = Launch {
        kernel: Kernel::Idct32x32,
        grid: Grid::Items { count: num_blocks },
        arrays: vec![
            word_array(input, num_blocks as u64 * 1024),
            word_array(output, num_blocks as u64 * 1024),
        ],
        scalars: Vec::new(),
    };
    assert(launch@.arrays =~= idct_32x32_launch(input, output, num_blocks).arrays);
    assert(launch@.scalars =~= idct_32x32_launch(input, output, num_blocks).scalars);
    launch
}

/// The launch that [`dct_32x16`] describes.
pub open spec fn dct_32x16_launch(
    input: Handle,
    output: Handle,
    num_blocks: u32,
) -> LaunchSpec {
    LaunchSpec {
        kernel: Kernel::Dct32x16,
        grid: Grid::Items { count: num_blocks },
        arrays: seq![
            words(input, num_blocks * 512),
            words(output, num_blocks * 512),
        ],
        scalars: seq![],
    }
}

/// The forward DCT of `num_blocks` blocks of 32x16 pixels.
pub fn dct_32x16(
    input: Handle,
    output: Handle,
    num_blocks: u32,
) -> (launch: Launch)
    ensures
        launch@ == dct_32x16_launch(input, output, num_blocks),
{
    let launch: Launch = Launch {
        kernel: Kernel::Dct32x16,
        grid: Grid::Items { count: num_blocks },
        arrays: vec![
            word_array(input, num_blocks as u64 * 512),
            word_array(output, num_blocks as u64 * 512),
        ],
        scalars: Vec::new(),
    };
    assert(launch@.arrays =~= dct_32x16_launch(input, output, num_blocks).arrays);
    assert(launch@.scalars =~= dct_32x16_launch(input, output, num_blocks).scalars);
    launch
}

/// The launch that [`idct_32x16`] describes.
pub open spec fn idct_32x16_launch(
    input: Handle,
    output: Handle,
    num_blocks: u32,
) -> LaunchSpec {
    LaunchSpec {
        kernel: Kernel::Idct32x16,
        grid: Grid::Items { count: num_blocks },
        arrays: seq![
            words(input, num_blocks * 512),
            words(output, num_blocks * 512),
        ],
        scalars: seq![],
    }
}

/// The inverse DCT of `num_blocks` blocks of 32x16 pixels.
pub fn idct_32x16(
    input: Handle,
    output: Handle,
    num_blocks: u32,
) -> (launch: Launch)
    ensures
        launch@ == idct_32x16_launch(input, output, num_blocks),
{
    let launch: Launch = Launch {
        kernel: Kernel::Idct32x16,
        grid: Grid::Items { count: num_blocks },
        arrays: vec![
            word_array(input, num_blocks as u64 * 512),
            word_array(output, num_blocks as u64 * 512),
        ],
        scalars: Vec::new(),
    };
    assert(launch@.arrays =~= idct_32x16_launch(input, output, num_blocks).arrays);
    assert(launch@.scalars =~= idct_32x16_launch(input, output, num_blocks).scalars);
    launch
}

/// The launch that [`dct_16x32`] describes.
pub open spec fn dct_16x32_launch(
    input: Handle,
    output: Handle,
    num_blocks: u32,
) -> LaunchSpec {
    LaunchSpec {
        kernel: Kernel::Dct16x32,
        grid: Grid::Items { count: num_blocks },
        arrays: seq![
            words(input, num_blocks * 512),
            words(output, num_blocks * 512),
        ],
        scalars: seq![],
    }
}

/// The forward DCT of `num_blocks` blocks of 16x32 pixels.
pub fn dct_16x32(
    input: Handle,
    output: Handle,
    num_blocks: u32,
) -> (launch: Launch)
    ensures
        launch@ == dct_16x32_launch(input, output, num_blocks),
{
    let launch: Launch = Launch {
        kernel: Kernel::Dct16x32,
        grid: Grid::Items { count: num_blocks },
        arrays: vec![
            word_array(input, num_blocks as u64 * 512),
            word_array(output, num_blocks as u64 * 512),
        ],
        scalars: Vec::new(),
    };
    assert(launch@.arrays =~= dct_16x32_launch(input, output, num_blocks).arrays);
    assert(launch@.scalars =~= dct_16x32_launch(input, output, num_blocks).scalars);
    launch
}

/// The launch that [`idct_16x32`] describes.
pub open spec fn idct_16x32_launch(
    input: Handle,
    output: Handle,
    num_blocks: u32,
) -> LaunchSpec {
    LaunchSpec {
        kernel: Kernel::Idct16x32,
        grid: Grid::Items { count: num_blocks },
        arrays: seq![
            words(input, num_blocks * 512),
            words(output, num_blocks * 512),
        ],
        scalars: seq![],
    }
}

/// The inverse DCT of `num_blocks` blocks of 16x32 pixels.
pub fn idct_16x32(
    input: Handle,
    output: Handle,
    num_blocks: u32,
) -> (launch: Launch)
    ensures
        launch@ == idct_16x32_launch(input, output, num_blocks),
{
    let launch: Launch = Launch {
        kernel: Kernel::Idct16x32,
        grid: Grid::Items { count: num_blocks },
        arrays: vec![
            word_array(input, num_blocks as u64 * 512),
            word_array(output, num_blocks as u64 * 512),
        ],
        scalars: Vec::new(),
    };
    assert(launch@.arrays =~= idct_16x32_launch(input, output, num_blocks).arrays);
    assert(launch@.scalars =~= idct_16x32_launch(input, output, num_blocks).scalars);
    launch
}

} // verus!

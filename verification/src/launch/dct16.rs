//! Launches for the 16-pixel transforms.

use crate::device::{
    cube_each, one_cube_each, word_array, words, Grid, Handle, Kernel, Launch, LaunchSpec,
};
use vstd::prelude::*;

verus! {

/// The launch that [`dct_16x16`] describes.
pub open spec fn dct_16x16_launch(
    input: Handle,
    output: Handle,
    num_blocks: u32,
) -> LaunchSpec {
    LaunchSpec {
        kernel: Kernel::Dct16x16,
        grid: cube_each(num_blocks, 1),
        arrays: seq![
            words(input, num_blocks * 256),
            words(output, num_blocks * 256),
        ],
        scalars: seq![],
    }
}

/// The forward DCT of `num_blocks` blocks of 16x16 pixels.
pub fn dct_16x16(
    input: Handle,
    output: Handle,
    num_blocks: u32,
) -> (launch: Launch)
    ensures
        launch@ == dct_16x16_launch(input, output, num_blocks),
{
    let launch: Launch = Launch {
        kernel: Kernel::Dct16x16,
        grid: one_cube_each(num_blocks, 1),
        arrays: vec![
            word_array(input, num_blocks as u64 * 256),
            word_array(output, num_blocks as u64 * 256),
        ],
        scalars: Vec::new(),
    };
    assert(launch@.arrays =~= dct_16x16_launch(input, output, num_blocks).arrays);
    assert(launch@.scalars =~= dct_16x16_launch(input, output, num_blocks).scalars);
    launch
}

/// The launch that [`idct_16x16`] describes.
pub open spec fn idct_16x16_launch(
    input: Handle,
    output: Handle,
    num_blocks: u32,
) -> LaunchSpec {
    LaunchSpec {
        kernel: Kernel::Idct16x16,
        grid: cube_each(num_blocks, 1),
        arrays: seq![
            words(input, num_blocks * 256),
            words(output, num_blocks * 256),
        ],
        scalars: seq![],
    }
}

/// The inverse DCT of `num_blocks` blocks of 16x16 pixels.
pub fn idct_16x16(
    input: Handle,
    output: Handle,
    num_blocks: u32,
) -> (launch: Launch)
    ensures
        launch@ == idct_16x16_launch(input, output, num_blocks),
{
    let launch: Launch = Launch {
        kernel: Kernel::Idct16x16,
        grid: one_cube_each(num_blocks, 1),
        arrays: vec![
            word_array(input, num_blocks as u64 * 256),
            word_array(output, num_blocks as u64 * 256),
        ],
        scalars: Vec::new(),
    };
    assert(launch@.arrays =~= idct_16x16_launch(input, output, num_blocks).arrays);
    assert(launch@.scalars =~= idct_16x16_launch(input, output, num_blocks).scalars);
    launch
}

/// The launch that [`dct_16x8`] describes.
pub open spec fn dct_16x8_launch(
    input: Handle,
    output: Handle,
    num_blocks: u32,
) -> LaunchSpec {
    LaunchSpec {
        kernel: Kernel::Dct16x8,
        grid: Grid::Items { count: num_blocks },
        arrays: seq![
            words(input, num_blocks * 128),
            words(output, num_blocks * 128),
        ],
        scalars: seq![],
    }
}

/// The forward DCT of `num_blocks` blocks of 16x8 pixels.
pub fn dct_16x8(
    input: Handle,
    output: Handle,
    num_blocks: u32,
) -> (launch: Launch)
    ensures
        launch@ == dct_16x8_launch(input, output, num_blocks),
{
    let launch: Launch = Launch {
        kernel: Kernel::Dct16x8,
        grid: Grid::Items { count: num_blocks },
        arrays: vec![
            word_array(input, num_blocks as u64 * 128),
            word_array(output, num_blocks as u64 * 128),
        ],
        scalars: Vec::new(),
    };
    assert(launch@.arrays =~= dct_16x8_launch(input, output, num_blocks).arrays);
    assert(launch@.scalars =~= dct_16x8_launch(input, output, num_blocks).scalars);
    launch
}

/// The launch that [`idct_16x8`] describes.
pub open spec fn idct_16x8_launch(
    input: Handle,
    output: Handle,
    num_blocks: u32,
) -> LaunchSpec {
    LaunchSpec {
        kernel: Kernel::Idct16x8,
        grid: Grid::Items { count: num_blocks },
        arrays: seq![
            words(input, num_blocks * 128),
            words(output, num_blocks * 128),
        ],
        scalars: seq![],
    }
}

/// The inverse DCT of `num_blocks` blocks of 16x8 pixels.
pub fn idct_16x8(
    input: Handle,
    output: Handle,
    num_blocks: u32,
) -> (launch: Launch)
    ensures
        launch@ == idct_16x8_launch(input, output, num_blocks),
{
    let launch: Launch = Launch {
        kernel: Kernel::Idct16x8,
        grid: Grid::Items { count: num_blocks },
        arrays: vec![
            word_array(input, num_blocks as u64 * 128),
            word_array(output, num_blocks as u64 * 128),
        ],
        scalars: Vec::new(),
    };
    assert(launch@.arrays =~= idct_16x8_launch(input, output, num_blocks).arrays);
    assert(launch@.scalars =~= idct_16x8_launch(input, output, num_blocks).scalars);
    launch
}

/// The launch that [`dct_8x16`] describes.
pub open spec fn dct_8x16_launch(
    input: Handle,
    output: Handle,
    num_blocks: u32,
) -> LaunchSpec {
    LaunchSpec {
        kernel: Kernel::Dct8x16,
        grid: Grid::Items { count: num_blocks },
        arrays: seq![
            words(input, num_blocks * 128),
            words(output, num_blocks * 128),
        ],
        scalars: seq![],
    }
}

/// The forward DCT of `num_blocks` blocks of 8x16 pixels.
pub fn dct_8x16(
    input: Handle,
    output: Handle,
    num_blocks: u32,
) -> (launch: Launch)
    ensures
        launch@ == dct_8x16_launch(input, output, num_blocks),
{
    let launch: Launch = Launch {
        kernel: Kernel::Dct8x16,
        grid: Grid::Items { count: num_blocks },
        arrays: vec![
            word_array(input, num_blocks as u64 * 128),
            word_array(output, num_blocks as u64 * 128),
        ],
        scalars: Vec::new(),
    };
    assert(launch@.arrays =~= dct_8x16_launch(input, output, num_blocks).arrays);
    assert(launch@.scalars =~= dct_8x16_launch(input, output, num_blocks).scalars);
    launch
}

/// The launch that [`idct_8x16`] describes.
pub open spec fn idct_8x16_launch(
    input: Handle,
    output: Handle,
    num_blocks: u32,
) -> LaunchSpec {
    LaunchSpec {
        kernel: Kernel::Idct8x16,
        grid: Grid::Items { count: num_blocks },
        arrays: seq![
            words(input, num_blocks * 128),
            words(output, num_blocks * 128),
        ],
        scalars: seq![],
    }
}

/// The inverse DCT of `num_blocks` blocks of 8x16 pixels.
pub fn idct_8x16(
    input: Handle,
    output: Handle,
    num_blocks: u32,
) -> (launch: Launch)
    ensures
        launch@ == idct_8x16_launch(input, output, num_blocks),
{
    let launch: Launch = Launch {
        kernel: Kernel::Idct8x16,
        grid: Grid::Items { count: num_blocks },
        arrays: vec![
            word_array(input, num_blocks as u64 * 128),
            word_array(output, num_blocks as u64 * 128),
        ],
        scalars: Vec::new(),
    };
    assert(launch@.arrays =~= idct_8x16_launch(input, output, num_blocks).arrays);
    assert(launch@.scalars =~= idct_8x16_launch(input, output, num_blocks).scalars);
    launch
}

} // verus!

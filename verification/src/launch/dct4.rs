//! Launches for the 4-pixel transforms of 8x8 blocks.

use crate::device::{
    cube_each, one_cube_each, word_array, words, Handle, Kernel, Launch, LaunchSpec,
};
use vstd::prelude::*;

verus! {

/// The launch that [`dct_4x4_full`] describes.
pub open spec fn dct_4x4_full_launch(
    input: Handle,
    output: Handle,
    num_blocks: u32,
) -> LaunchSpec {
    LaunchSpec {
        kernel: Kernel::Dct4x4Full,
        grid: cube_each(num_blocks, 1),
        arrays: seq![
            words(input, num_blocks * 64),
            words(output, num_blocks * 64),
        ],
        scalars: seq![],
    }
}

/// The forward DCT4x4 of `num_blocks` 8x8 blocks.
pub fn dct_4x4_full(
    input: Handle,
    output: Handle,
    num_blocks: u32,
) -> (launch: Launch)
    ensures
        launch@ == dct_4x4_full_launch(input, output, num_blocks),
{
    let launch: Launch = Launch {
        kernel: Kernel::Dct4x4Full,
        grid: one_cube_each(num_blocks, 1),
        arrays: vec![
            word_array(input, num_blocks as u64 * 64),
            word_array(output, num_blocks as u64 * 64),
        ],
        scalars: Vec::new(),
    };
    assert(launch@.arrays =~= dct_4x4_full_launch(input, output, num_blocks).arrays);
    assert(launch@.scalars =~= dct_4x4_full_launch(input, output, num_blocks).scalars);
    launch
}

/// The launch that [`idct_4x4_full`] describes.
pub open spec fn idct_4x4_full_launch(
    input: Handle,
    output: Handle,
    num_blocks: u32,
) -> LaunchSpec {
    LaunchSpec {
        kernel: Kernel::Idct4x4Full,
        grid: cube_each(num_blocks, 1),
        arrays: seq![
            words(input, num_blocks * 64),
            words(output, num_blocks * 64),
        ],
        scalars: seq![],
    }
}

/// The inverse DCT4x4 of `num_blocks` 8x8 blocks.
pub fn idct_4x4_full(
    input: Handle,
    output: Handle,
    num_blocks: u32,
) -> (launch: Launch)
    ensures
        launch@ == idct_4x4_full_launch(input, output, num_blocks),
{
    let launch: Launch = Launch {
        kernel: Kernel::Idct4x4Full,
        grid: one_cube_each(num_blocks, 1),
        arrays: vec![
            word_array(input, num_blocks as u64 * 64),
            word_array(output, num_blocks as u64 * 64),
        ],
        scalars: Vec::new(),
    };
    assert(launch@.arrays =~= idct_4x4_full_launch(input, output, num_blocks).arrays);
    assert(launch@.scalars =~= idct_4x4_full_launch(input, output, num_blocks).scalars);
    launch
}

/// The launch that [`dct_4x8_full`] describes.
pub open spec fn dct_4x8_full_launch(
    input: Handle,
    output: Handle,
    num_blocks: u32,
) -> LaunchSpec {
    LaunchSpec {
        kernel: Kernel::Dct4x8Full,
        grid: cube_each(num_blocks, 1),
        arrays: seq![
            words(input, num_blocks * 64),
            words(output, num_blocks * 64),
        ],
        scalars: seq![],
    }
}

/// The forward DCT4x8 of `num_blocks` 8x8 blocks.
pub fn dct_4x8_full(
    input: Handle,
    output: Handle,
    num_blocks: u32,
) -> (launch: Launch)
    ensures
        launch@ == dct_4x8_full_launch(input, output, num_blocks),
{
    let launch: Launch = Launch {
        kernel: Kernel::Dct4x8Full,
        grid: one_cube_each(num_blocks, 1),
        arrays: vec![
            word_array(input, num_blocks as u64 * 64),
            word_array(output, num_blocks as u64 * 64),
        ],
        scalars: Vec::new(),
    };
    assert(launch@.arrays =~= dct_4x8_full_launch(input, output, num_blocks).arrays);
    assert(launch@.scalars =~= dct_4x8_full_launch(input, output, num_blocks).scalars);
    launch
}

/// The launch that [`idct_4x8_full`] describes.
pub open spec fn idct_4x8_full_launch(
    input: Handle,
    output: Handle,
    num_blocks: u32,
) -> LaunchSpec {
    LaunchSpec {
        kernel: Kernel::Idct4x8Full,
        grid: cube_each(num_blocks, 1),
        arrays: seq![
            words(input, num_blocks * 64),
            words(output, num_blocks * 64),
        ],
        scalars: seq![],
    }
}

/// The inverse DCT4x8 of `num_blocks` 8x8 blocks.
pub fn idct_4x8_full(
    input: Handle,
    output: Handle,
    num_blocks: u32,
) -> (launch: Launch)
    ensures
        launch@ == idct_4x8_full_launch(input, output, num_blocks),
{
    let launch: Launch = Launch {
        kernel: Kernel::Idct4x8Full,
        grid: one_cube_each(num_blocks, 1),
        arrays: vec![
            word_array(input, num_blocks as u64 * 64),
            word_array(output, num_blocks as u64 * 64),
        ],
        scalars: Vec::new(),
    };
    assert(launch@.arrays =~= idct_4x8_full_launch(input, output, num_blocks).arrays);
    assert(launch@.scalars =~= idct_4x8_full_launch(input, output, num_blocks).scalars);
    launch
}

/// The launch that [`dct_8x4_full`] describes.
pub open spec fn dct_8x4_full_launch(
    input: Handle,
    output: Handle,
    num_blocks: u32,
) -> LaunchSpec {
    LaunchSpec {
        kernel: Kernel::Dct8x4Full,
        grid: cube_each(num_blocks, 1),
        arrays: seq![
            words(input, num_blocks * 64),
            words(output, num_blocks * 64),
        ],
        scalars: seq![],
    }
}

/// The forward DCT8x4 of `num_blocks` 8x8 blocks.
pub fn dct_8x4_full(
    input: Handle,
    output: Handle,
    num_blocks: u32,
) -> (launch: Launch)
    ensures
        launch@ == dct_8x4_full_launch(input, output, num_blocks),
{
    let launch: Launch = Launch {
        kernel: Kernel::Dct8x4Full,
        grid: one_cube_each(num_blocks, 1),
        arrays: vec![
            word_array(input, num_blocks as u64 * 64),
            word_array(output, num_blocks as u64 * 64),
        ],
        scalars: Vec::new(),
    };
    assert(launch@.arrays =~= dct_8x4_full_launch(input, output, num_blocks).arrays);
    assert(launch@.scalars =~= dct_8x4_full_launch(input, output, num_blocks).scalars);
    launch
}

/// The launch that [`idct_8x4_full`] describes.
pub open spec fn idct_8x4_full_launch(
    input: Handle,
    output: Handle,
    num_blocks: u32,
) -> LaunchSpec {
    LaunchSpec {
        kernel: Kernel::Idct8x4Full,
        grid: cube_each(num_blocks, 1),
        arrays: seq![
            words(input, num_blocks * 64),
            words(output, num_blocks * 64),
        ],
        scalars: seq![],
    }
}

/// The inverse DCT8x4 of `num_blocks` 8x8 blocks.
pub fn idct_8x4_full(
    input: Handle,
    output: Handle,
    num_blocks: u32,
) -> (launch: Launch)
    ensures
        launch@ == idct_8x4_full_launch(input, output, num_blocks),
{
    let launch: Launch = Launch {
        kernel: Kernel::Idct8x4Full,
        grid: one_cube_each(num_blocks, 1),
        arrays: vec![
            word_array(input, num_blocks as u64 * 64),
            word_array(output, num_blocks as u64 * 64),
        ],
        scalars: Vec::new(),
    };
    assert(launch@.arrays =~= idct_8x4_full_launch(input, output, num_blocks).arrays);
    assert(launch@.scalars =~= idct_8x4_full_launch(input, output, num_blocks).scalars);
    launch
}

} // verus!

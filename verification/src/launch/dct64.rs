//! Launches for the 64-pixel transforms.

use crate::device::{
    cube_each, one_cube_each, word_array, words, Handle, Kernel, Launch, LaunchSpec,
};
use vstd::prelude::*;

verus! {

/// The launch that [`dct_64x64`] describes.
pub open spec fn dct_64x64_launch(
    input: Handle,
    output: Handle,
    num_blocks: u32,
) -> LaunchSpec {
    LaunchSpec {
        kernel: Kernel::Dct64x64,
        grid: cube_each(num_blocks, 1),
        arrays: seq![
            words(input, num_blocks * 4096),
            words(output, num_blocks * 4096),
        ],
        scalars: seq![],
    }
}

/// The forward DCT of `num_blocks` blocks of 64x64 pixels.
pub fn dct_64x64(
    input: Handle,
    output: Handle,
    num_blocks: u32,
) -> (launch: Launch)
    ensures
        launch@ == dct_64x64_launch(input, output, num_blocks),
{
    let launch: Launch = Launch {
        kernel: Kernel::Dct64x64,
        grid: one_cube_each(num_blocks, 1),
        arrays: vec![
            word_array(input, num_blocks as u64 * 4096),
            word_array(output, num_blocks as u64 * 4096),
        ],
        scalars: Vec::new(),
    };
    assert(launch@.arrays =~= dct_64x64_launch(input, output, num_blocks).arrays);
    assert(launch@.scalars =~= dct_64x64_launch(input, output, num_blocks).scalars);
    launch
}

/// The launch that [`idct_64x64`] describes.
pub open spec fn idct_64x64_launch(
    input: Handle,
    output: Handle,
    num_blocks: u32,
) -> LaunchSpec {
    LaunchSpec {
        kernel: Kernel::Idct64x64,
        grid: cube_each(num_blocks, 1),
        arrays: seq![
            words(input, num_blocks * 4096),
            words(output, num_blocks * 4096),
        ],
        scalars: seq![],
    }
}

/// The inverse DCT of `num_blocks` blocks of 64x64 pixels.
pub fn idct_64x64(
    input: Handle,
    output: Handle,
    num_blocks: u32,
) -> (launch: Launch)
    ensures
        launch@ == idct_64x64_launch(input, output, num_blocks),
{
    let launch: Launch = Launch {
        kernel: Kernel::Idct64x64,
        grid: one_cube_each(num_blocks, 1),
        arrays: vec![
            word_array(input, num_blocks as u64 * 4096),
            word_array(output, num_blocks as u64 * 4096),
        ],
        scalars: Vec::new(),
    };
    assert(launch@.arrays =~= idct_64x64_launch(input, output, num_blocks).arrays);
    assert(launch@.scalars =~= idct_64x64_launch(input, output, num_blocks).scalars);
    launch
}

/// The launch that [`dct_64x32`] describes.
pub open spec fn dct_64x32_launch(
    input: Handle,
    output: Handle,
    num_blocks: u32,
) -> LaunchSpec {
    LaunchSpec {
        kernel: Kernel::Dct64x32,
        grid: cube_each(num_blocks, 1),
        arrays: seq![
            words(input, num_blocks * 2048),
            words(output, num_blocks * 2048),
        ],
        scalars: seq![],
    }
}

/// The forward DCT of `num_blocks` blocks of 64x32 pixels.
pub fn dct_64x32(
    input: Handle,
    output: Handle,
    num_blocks: u32,
) -> (launch: Launch)
    ensures
        launch@ == dct_64x32_launch(input, output, num_blocks),
{
    let launch: Launch = Launch {
        kernel: Kernel::Dct64x32,
        grid: one_cube_each(num_blocks, 1),
        arrays: vec![
            word_array(input, num_blocks as u64 * 2048),
            word_array(output, num_blocks as u64 * 2048),
        ],
        scalars: Vec::new(),
    };
    assert(launch@.arrays =~= dct_64x32_launch(input, output, num_blocks).arrays);
    assert(launch@.scalars =~= dct_64x32_launch(input, output, num_blocks).scalars);
    launch
}

/// The launch that [`idct_64x32`] describes.
pub open spec fn idct_64x32_launch(
    input: Handle,
    output: Handle,
    num_blocks: u32,
) -> LaunchSpec {
    LaunchSpec {
        kernel: Kernel::Idct64x32,
        grid: cube_each(num_blocks, 1),
        arrays: seq![
            words(input, num_blocks * 2048),
            words(output, num_blocks * 2048),
        ],
        scalars: seq![],
    }
}

/// The inverse DCT of `num_blocks` blocks of 64x32 pixels.
pub fn idct_64x32(
    input: Handle,
    output: Handle,
    num_blocks: u32,
) -> (launch: Launch)
    ensures
        launch@ == idct_64x32_launch(input, output, num_blocks),
{
    let launch: Launch = Launch {
        kernel: Kernel::Idct64x32,
        grid: one_cube_each(num_blocks, 1),
        arrays: vec![
            word_array(input, num_blocks as u64 * 2048),
            word_array(output, num_blocks as u64 * 2048),
        ],
        scalars: Vec::new(),
    };
    assert(launch@.arrays =~= idct_64x32_launch(input, output, num_blocks).arrays);
    assert(launch@.scalars =~= idct_64x32_launch(input, output, num_blocks).scalars);
    launch
}

/// The launch that [`dct_32x64`] describes.
pub open spec fn dct_32x64_launch(
    input: Handle,
    output: Handle,
    num_blocks: u32,
) -> LaunchSpec {
    LaunchSpec {
        kernel: Kernel::Dct32x64,
        grid: cube_each(num_blocks, 1),
        arrays: seq![
            words(input, num_blocks * 2048),
            words(output, num_blocks * 2048),
        ],
        scalars: seq![],
    }
}

/// The forward DCT of `num_blocks` blocks of 32x64 pixels.
pub fn dct_32x64(
    input: Handle,
    output: Handle,
    num_blocks: u32,
) -> (launch: Launch)
    ensures
        launch@ == dct_32x64_launch(input, output, num_blocks),
{
    let launch: Launch = Launch {
        kernel: Kernel::Dct32x64,
        grid: one_cube_each(num_blocks, 1),
        arrays: vec![
            word_array(input, num_blocks as u64 * 2048),
            word_array(output, num_blocks as u64 * 2048),
        ],
        scalars: Vec::new(),
    };
    assert(launch@.arrays =~= dct_32x64_launch(input, output, num_blocks).arrays);
    assert(launch@.scalars =~= dct_32x64_launch(input, output, num_blocks).scalars);
    launch
}

/// The launch that [`idct_32x64`] describes.
pub open spec fn idct_32x64_launch(
    input: Handle,
    output: Handle,
    num_blocks: u32,
) -> LaunchSpec {
    LaunchSpec {
        kernel: Kernel::Idct32x64,
        grid: cube_each(num_blocks, 1),
        arrays: seq![
            words(input, num_blocks * 2048),
            words(output, num_blocks * 2048),
        ],
        scalars: seq![],
    }
}

/// The inverse DCT of `num_blocks` blocks of 32x64 pixels.
pub fn idct_32x64(
    input: Handle,
    output: Handle,
    num_blocks: u32,
) -> (launch: Launch)
    ensures
        launch@ == idct_32x64_launch(input, output, num_blocks),
{
    let launch: Launch = Launch {
        kernel: Kernel::Idct32x64,
        grid: one_cube_each(num_blocks, 1),
        arrays: vec![
            word_array(input, num_blocks as u64 * 2048),
            word_array(output, num_blocks as u64 * 2048),
        ],
        scalars: Vec::new(),
    };
    assert(launch@.arrays =~= idct_32x64_launch(input, output, num_blocks).arrays);
    assert(launch@.scalars =~= idct_32x64_launch(input, output, num_blocks).scalars);
    launch
}

} // verus!

//! Launches for bare 4x4 and 4x8 transforms.

use crate::device::{
    cube_each, one_cube_each, word_array, words, Handle, Kernel, Launch, LaunchSpec,
};
use vstd::prelude::*;

verus! {

/// The launch that [`dct_4x4_raw`] describes.
pub open spec fn dct_4x4_raw_launch(
    input: Handle,
    output: Handle,
    num_blocks: u32,
) -> LaunchSpec {
    LaunchSpec {
        kernel: Kernel::Dct4x4Raw,
        grid: cube_each(num_blocks, 1),
        arrays: seq![
            words(input, num_blocks * 16),
            words(output, num_blocks * 16),
        ],
        scalars: seq![],
    }
}

/// The forward DCT of `num_blocks` blocks of 4x4 pixels.
pub fn dct_4x4_raw(
    input: Handle,
    output: Handle,
    num_blocks: u32,
) -> (launch: Launch)
    ensures
        launch@ == dct_4x4_raw_launch(input, output, num_blocks),
{
    let launch: Launch = Launch {
        kernel: Kernel::Dct4x4Raw,
        grid: one_cube_each(num_blocks, 1),
        arrays: vec![
            word_array(input, num_blocks as u64 * 16),
            word_array(output, num_blocks as u64 * 16),
        ],
        scalars: Vec::new(),
    };
    assert(launch@.arrays =~= dct_4x4_raw_launch(input, output, num_blocks).arrays);
    assert(launch@.scalars =~= dct_4x4_raw_launch(input, output, num_blocks).scalars);
    launch
}

/// The launch that [`dct_4x8_raw`] describes.
pub open spec fn dct_4x8_raw_launch(
    input: Handle,
    output: Handle,
    num_blocks: u32,
) -> LaunchSpec {
    LaunchSpec {
        kernel: Kernel::Dct4x8Raw,
        grid: cube_each(num_blocks, 1),
        arrays: seq![
            words(input, num_blocks * 32),
            words(output, num_blocks * 32),
        ],
        scalars: seq![],
    }
}

/// The forward DCT of `num_blocks` blocks of 4x8 pixels.
pub fn dct_4x8_raw(
    input: Handle,
    output: Handle,
    num_blocks: u32,
) -> (launch: Launch)
    ensures
        launch@ == dct_4x8_raw_launch(input, output, num_blocks),
{
    let launch: Launch = Launch {
        kernel: Kernel::Dct4x8Raw,
        grid: one_cube_each(num_blocks, 1),
        arrays: vec![
            word_array(input, num_blocks as u64 * 32),
            word_array(output, num_blocks as u64 * 32),
        ],
        scalars: Vec::new(),
    };
    assert(launch@.arrays =~= dct_4x8_raw_launch(input, output, num_blocks).arrays);
    assert(launch@.scalars =~= dct_4x8_raw_launch(input, output, num_blocks).scalars);
    launch
}

} // verus!

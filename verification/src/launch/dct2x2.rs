//! Launches for the 2x2 transform.

use crate::device::{word_array, words, Grid, Handle, Kernel, Launch, LaunchSpec};
use vstd::prelude::*;

verus! {

/// The launch that [`dct2x2_forward`] describes.
pub open spec fn dct2x2_forward_launch(
    input: Handle,
    output: Handle,
    num_blocks: u32,
) -> LaunchSpec {
    LaunchSpec {
        kernel: Kernel::Dct2x2Forward,
        grid: Grid::Items { count: num_blocks },
        arrays: seq![
            words(input, num_blocks * 64),
            words(output, num_blocks * 64),
        ],
        scalars: seq![],
    }
}

/// The forward DCT2x2 of `num_blocks` 8x8 blocks.
pub fn dct2x2_forward(
    input: Handle,
    output: Handle,
    num_blocks: u32,
) -> (launch: Launch)
    ensures
        launch@ == dct2x2_forward_launch(input, output, num_blocks),
{
    let launch: Launch = Launch {
        kernel: Kernel::Dct2x2Forward,
        grid: Grid::Items { count: num_blocks },
        arrays: vec![
            word_array(input, num_blocks as u64 * 64),
            word_array(output, num_blocks as u64 * 64),
        ],
        scalars: Vec::new(),
    };
    assert(launch@.arrays =~= dct2x2_forward_launch(input, output, num_blocks).arrays);
    assert(launch@.scalars =~= dct2x2_forward_launch(input, output, num_blocks).scalars);
    launch
}

/// The launch that [`dct2x2_inverse`] describes.
pub open spec fn dct2x2_inverse_launch(
    input: Handle,
    output: Handle,
    num_blocks: u32,
) -> LaunchSpec {
    LaunchSpec {
        kernel: Kernel::Dct2x2Inverse,
        grid: Grid::Items { count: num_blocks },
        arrays: seq![
            words(input, num_blocks * 64),
            words(output, num_blocks * 64),
        ],
        scalars: seq![],
    }
}

/// The inverse DCT2x2 of `num_blocks` 8x8 blocks.
pub fn dct2x2_inverse(
    input: Handle,
    output: Handle,
    num_blocks: u32,
) -> (launch: Launch)
    ensures
        launch@ == dct2x2_inverse_launch(input, output, num_blocks),
{
    let launch: Launch = Launch {
        kernel: Kernel::Dct2x2Inverse,
        grid: Grid::Items { count: num_blocks },
        arrays: vec![
            word_array(input, num_blocks as u64 * 64),
            word_array(output, num_blocks as u64 * 64),
        ],
        scalars: Vec::new(),
    };
    assert(launch@.arrays =~= dct2x2_inverse_launch(input, output, num_blocks).arrays);
    assert(launch@.scalars =~= dct2x2_inverse_launch(input, output, num_blocks).scalars);
    launch
}

} // verus!

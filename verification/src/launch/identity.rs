//! Launches for the identity transform.

use crate::device::{
    cube_each, one_cube_each, word_array, words, Handle, Kernel, Launch, LaunchSpec,
};
use vstd::prelude::*;

verus! {

/// The launch that [`identity_forward`] describes.
pub open spec fn identity_forward_launch(
    input: Handle,
    output: Handle,
    num_blocks: u32,
) -> LaunchSpec {
    LaunchSpec {
        kernel: Kernel::IdentityForward,
        grid: cube_each(num_blocks, 1),
        arrays: seq![
            words(input, num_blocks * 64),
            words(output, num_blocks * 64),
        ],
        scalars: seq![],
    }
}

/// The forward identity transform of `num_blocks` 8x8 blocks.
pub fn identity_forward(
    input: Handle,
    output: Handle,
    num_blocks: u32,
) -> (launch: Launch)
    ensures
        launch@ == identity_forward_launch(input, output, num_blocks),
{
    let launch: Launch = Launch {
        kernel: Kernel::IdentityForward,
        grid: one_cube_each(num_blocks, 1),
        arrays: vec![
            word_array(input, num_blocks as u64 * 64),
            word_array(output, num_blocks as u64 * 64),
        ],
        scalars: Vec::new(),
    };
    assert(launch@.arrays =~= identity_forward_launch(input, output, num_blocks).arrays);
    assert(launch@.scalars =~= identity_forward_launch(input, output, num_blocks).scalars);
    launch
}

/// The launch that [`identity_inverse`] describes.
pub open spec fn identity_inverse_launch(
    input: Handle,
    output: Handle,
    num_blocks: u32,
) -> LaunchSpec {
    LaunchSpec {
        kernel: Kernel::IdentityInverse,
        grid: cube_each(num_blocks, 1),
        arrays: seq![
            words(input, num_blocks * 64),
            words(output, num_blocks * 64),
        ],
        scalars: seq![],
    }
}

/// The inverse identity transform of `num_blocks` 8x8 blocks.
pub fn identity_inverse(
    input: Handle,
    output: Handle,
    num_blocks: u32,
) -> (launch: Launch)
    ensures
        launch@ == identity_inverse_launch(input, output, num_blocks),
{
    let launch: Launch = Launch {
        kernel: Kernel::IdentityInverse,
        grid: one_cube_each(num_blocks, 1),
        arrays: vec![
            word_array(input, num_blocks as u64 * 64),
            word_array(output, num_blocks as u64 * 64),
        ],
        scalars: Vec::new(),
    };
    assert(launch@.arrays =~= identity_inverse_launch(input, output, num_blocks).arrays);
    assert(launch@.scalars =~= identity_inverse_launch(input, output, num_blocks).scalars);
    launch
}

} // verus!

//! Launches for the 4x4 transform of the AFV family.

use crate::device::{
    cube_each, one_cube_each, word_array, words, Handle, Kernel, Launch, LaunchSpec,
};
use vstd::prelude::*;

verus! {

/// The launch that [`afv_dct_4x4`] describes.
pub open spec fn afv_dct_4x4_launch(
    pixels: Handle,
    basis_t: Handle,
    coeffs: Handle,
    num_blocks: u32,
) -> LaunchSpec {
    LaunchSpec {
        kernel: Kernel::AfvDct4x4,
        grid: cube_each(num_blocks, 1),
        arrays: seq![
            words(pixels, num_blocks * 16),
            words(basis_t, 256),
            words(coeffs, num_blocks * 16),
        ],
        scalars: seq![],
    }
}

/// The forward AFV 4x4 transform of `num_blocks` blocks, from a basis of 256
/// numbers.
pub fn afv_dct_4x4(
    pixels: Handle,
    basis_t: Handle,
    coeffs: Handle,
    num_blocks: u32,
) -> (launch: Launch)
    ensures
        launch@ == afv_dct_4x4_launch(pixels, basis_t, coeffs, num_blocks),
{
    let launch: Launch = Launch {
        kernel: Kernel::AfvDct4x4,
        grid: one_cube_each(num_blocks, 1),
        arrays: vec![
            word_array(pixels, num_blocks as u64 * 16),
            word_array(basis_t, 256),
            word_array(coeffs, num_blocks as u64 * 16),
        ],
        scalars: Vec::new(),
    };
    assert(launch@.arrays =~= afv_dct_4x4_launch(pixels, basis_t, coeffs, num_blocks).arrays);
    assert(launch@.scalars =~= afv_dct_4x4_launch(pixels, basis_t, coeffs, num_blocks).scalars);
    launch
}

/// The launch that [`afv_idct_4x4`] describes.
pub open spec fn afv_idct_4x4_launch(
    coeffs: Handle,
    basis_t: Handle,
    pixels: Handle,
    num_blocks: u32,
) -> LaunchSpec {
    LaunchSpec {
        kernel: Kernel::AfvIdct4x4,
        grid: cube_each(num_blocks, 1),
        arrays: seq![
            words(coeffs, num_blocks * 16),
            words(basis_t, 256),
            words(pixels, num_blocks * 16),
        ],
        scalars: seq![],
    }
}

/// The inverse AFV 4x4 transform of `num_blocks` blocks, from a basis of 256
/// numbers.
pub fn afv_idct_4x4(
    coeffs: Handle,
    basis_t: Handle,
    pixels: Handle,
    num_blocks: u32,
) -> (launch: Launch)
    ensures
        launch@ == afv_idct_4x4_launch(coeffs, basis_t, pixels, num_blocks),
{
    let launch: Launch = Launch {
        kernel: Kernel::AfvIdct4x4,
        grid: one_cube_each(num_blocks, 1),
        arrays: vec![
            word_array(coeffs, num_blocks as u64 * 16),
            word_array(basis_t, 256),
            word_array(pixels, num_blocks as u64 * 16),
        ],
        scalars: Vec::new(),
    };
    assert(launch@.arrays =~= afv_idct_4x4_launch(coeffs, basis_t, pixels, num_blocks).arrays);
    assert(launch@.scalars =~= afv_idct_4x4_launch(coeffs, basis_t, pixels, num_blocks).scalars);
    launch
}

} // verus!

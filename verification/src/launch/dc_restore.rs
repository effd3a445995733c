//! Launch that puts first coefficients back.

use crate::device::{
    area, spread, spread_over, word_array, words, Handle, Kernel, Launch, LaunchSpec, Scalar,
};
use vstd::prelude::*;

verus! {

/// The launch that [`restore_dc`] describes.
pub open spec fn restore_dc_launch(
    src: Handle,
    dst: Handle,
    coeffs_per_block: u32,
    num_blocks: u32,
) -> LaunchSpec {
    LaunchSpec {
        kernel: Kernel::RestoreDc,
        grid: spread(num_blocks as int, 128),
        arrays: seq![
            words(src, num_blocks * coeffs_per_block),
            words(dst, num_blocks * coeffs_per_block),
        ],
        scalars: seq![
            Scalar::U32(coeffs_per_block),
            Scalar::U32(num_blocks),
        ],
    }
}

/// Copies the first coefficient of each block of `src` to `dst`.
pub fn restore_dc(
    src: Handle,
    dst: Handle,
    coeffs_per_block: u32,
    num_blocks: u32,
) -> (launch: Launch)
    ensures
        launch@ == restore_dc_launch(src, dst, coeffs_per_block, num_blocks),
{
    let launch: Launch = Launch {
        kernel: Kernel::RestoreDc,
        grid: spread_over(num_blocks, 128),
        arrays: vec![
            word_array(src, area(num_blocks, coeffs_per_block)),
            word_array(dst, area(num_blocks, coeffs_per_block)),
        ],
        scalars: vec![
            Scalar::U32(coeffs_per_block),
            Scalar::U32(num_blocks),
        ],
    };
    assert(launch@.arrays =~= restore_dc_launch(src, dst, coeffs_per_block, num_blocks).arrays);
    assert(launch@.scalars =~= restore_dc_launch(src, dst, coeffs_per_block, num_blocks).scalars);
    launch
}

} // verus!

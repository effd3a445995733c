//! Launch for the mask means of the 8x8 blocks.

use crate::device::{
    area, spread, spread_over, word_array, words, Handle, Kernel, Launch, LaunchSpec, Scalar,
};
use vstd::prelude::*;

verus! {

/// The launch that [`block_mask_mean`] describes.
pub open spec fn block_mask_mean_launch(
    mask: Handle,
    out: Handle,
    width: u32,
    height: u32,
    padded_width: u32,
    padded_height: u32,
) -> LaunchSpec {
    LaunchSpec {
        kernel: Kernel::BlockMaskMean,
        grid: spread(((padded_width / 8) * (padded_height / 8)) as u32 as int, 256),
        arrays: seq![
            words(mask, padded_width * padded_height),
            words(out, (padded_width / 8) * (padded_height / 8)),
        ],
        scalars: seq![
            Scalar::U32(width),
            Scalar::U32(height),
            Scalar::U32(padded_width),
            Scalar::U32(padded_width / 8),
            Scalar::U32(padded_height / 8),
        ],
    }
}

/// The mean of the mask over each 8x8 block of a padded plane, pixels outside
/// `width` by `height` left out.
pub fn block_mask_mean(
    mask: Handle,
    out: Handle,
    width: u32,
    height: u32,
    padded_width: u32,
    padded_height: u32,
) -> (launch: Launch)
    ensures
        launch@ == block_mask_mean_launch(mask, out, width, height, padded_width, padded_height),
{
    let n: u64 = area(padded_width / 8, padded_height / 8);
    let launch: Launch = Launch {
        kernel: Kernel::BlockMaskMean,
        grid: spread_over(n as u32, 256),
        arrays: vec![
            word_array(mask, area(padded_width, padded_height)),
            word_array(out, n),
        ],
        scalars: vec![
            Scalar::U32(width),
            Scalar::U32(height),
            Scalar::U32(padded_width),
            Scalar::U32(padded_width / 8),
            Scalar::U32(padded_height / 8),
        ],
    };
    assert(
        launch@.arrays =~= block_mask_mean_launch(
            mask,
            out,
            width,
            height,
            padded_width,
            padded_height,
        ).arrays
    );
    assert(
        launch@.scalars =~= block_mask_mean_launch(
            mask,
            out,
            width,
            height,
            padded_width,
            padded_height,
        ).scalars
    );
    launch
}

} // verus!

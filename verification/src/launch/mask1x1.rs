//! Launch for the masking field.

use crate::device::{
    area, spread, spread_over, word_array, words, Handle, Kernel, Launch, LaunchSpec, Scalar,
};
use vstd::prelude::*;

verus! {

/// The launch that [`mask1x1`] describes.
pub open spec fn mask1x1_launch(
    xyb_y: Handle,
    output: Handle,
    width: u32,
    height: u32,
) -> LaunchSpec {
    LaunchSpec {
        kernel: Kernel::Mask1x1,
        grid: spread(width * height, 256),
        arrays: seq![
            words(xyb_y, width * height),
            words(output, width * height),
        ],
        scalars: seq![
            Scalar::U32(width),
            Scalar::U32(height),
        ],
    }
}

/// The masking value of each pixel.
pub fn mask1x1(
    xyb_y: Handle,
    output: Handle,
    width: u32,
    height: u32,
) -> (launch: Launch)
    requires
        width * height <= u32::MAX,
    ensures
        launch@ == mask1x1_launch(xyb_y, output, width, height),
{
    let launch: Launch = Launch {
        kernel: Kernel::Mask1x1,
        grid: spread_over(width * height, 256),
        arrays: vec![
            word_array(xyb_y, area(width, height)),
            word_array(output, area(width, height)),
        ],
        scalars: vec![
            Scalar::U32(width),
            Scalar::U32(height),
        ],
    };
    assert(launch@.arrays =~= mask1x1_launch(xyb_y, output, width, height).arrays);
    assert(launch@.scalars =~= mask1x1_launch(xyb_y, output, width, height).scalars);
    launch
}

} // verus!

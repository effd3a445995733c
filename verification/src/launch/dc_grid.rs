//! Launch for the means of the 8x8 blocks.

use crate::device::{
    area, spread, spread_over, word_array, words, Handle, Kernel, Launch, LaunchSpec, Scalar,
};
use vstd::prelude::*;

verus! {

/// The launch that [`dc_grid_8x8`] describes.
pub open spec fn dc_grid_8x8_launch(
    plane: Handle,
    output: Handle,
    width: u32,
    height: u32,
) -> LaunchSpec {
    LaunchSpec {
        kernel: Kernel::DcGrid8x8,
        grid: spread(((width / 8) * (height / 8)) as int, 256),
        arrays: seq![
            words(plane, width * height),
            words(output, (width / 8) * (height / 8)),
        ],
        scalars: seq![
            Scalar::U32(width),
            Scalar::U32(width / 8),
            Scalar::U32(((width / 8) * (height / 8)) as u32),
        ],
    }
}

/// The mean of each 8x8 block of a plane.
pub fn dc_grid_8x8(
    plane: Handle,
    output: Handle,
    width: u32,
    height: u32,
) -> (launch: Launch)
    requires
        width % 8 == 0,
        height % 8 == 0,
        (width / 8) * (height / 8) <= u32::MAX,
    ensures
        launch@ == dc_grid_8x8_launch(plane, output, width, height),
{
    let n: u32 = (width / 8) * (height / 8);
    let launch: Launch = Launch {
        kernel: Kernel::DcGrid8x8,
        grid: spread_over(n, 256),
        arrays: vec![
            word_array(plane, area(width, height)),
            word_array(output, n as u64),
        ],
        scalars: vec![
            Scalar::U32(width),
            Scalar::U32(width / 8),
            Scalar::U32(((width / 8) * (height / 8)) as u32),
        ],
    };
    assert(launch@.arrays =~= dc_grid_8x8_launch(plane, output, width, height).arrays);
    assert(launch@.scalars =~= dc_grid_8x8_launch(plane, output, width, height).scalars);
    launch
}

} // verus!

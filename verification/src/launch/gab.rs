//! Launch for the smoothing filter.

use crate::device::{
    area, spread, spread_over, word_array, words, Handle, Kernel, Launch, LaunchSpec, Scalar,
};
use crate::float::Float32;
use vstd::prelude::*;

verus! {

/// The launch that [`gab_smooth`] describes.
pub open spec fn gab_smooth_launch(
    input: Handle,
    output: Handle,
    width: u32,
    height: u32,
    w_center: Float32,
    w1: Float32,
    w2: Float32,
) -> LaunchSpec {
    LaunchSpec {
        kernel: Kernel::GabSmooth,
        grid: spread(width * height, 256),
        arrays: seq![
            words(input, width * height),
            words(output, width * height),
        ],
        scalars: seq![
            Scalar::U32(width),
            Scalar::U32(height),
            Scalar::F32(w_center),
            Scalar::F32(w1),
            Scalar::F32(w2),
        ],
    }
}

/// The 3x3 smoothing filter.
pub fn gab_smooth(
    input: Handle,
    output: Handle,
    width: u32,
    height: u32,
    w_center: Float32,
    w1: Float32,
    w2: Float32,
) -> (launch: Launch)
    requires
        width * height <= u32::MAX,
    ensures
        launch@ == gab_smooth_launch(input, output, width, height, w_center, w1, w2),
{
    let launch: Launch = Launch {
        kernel: Kernel::GabSmooth,
        grid: spread_over(width * height, 256),
        arrays: vec![
            word_array(input, area(width, height)),
            word_array(output, area(width, height)),
        ],
        scalars: vec![
            Scalar::U32(width),
            Scalar::U32(height),
            Scalar::F32(w_center),
            Scalar::F32(w1),
            Scalar::F32(w2),
        ],
    };
    assert(
        launch@.arrays =~= gab_smooth_launch(input, output, width, height, w_center, w1, w2).arrays
    );
    assert(
        launch@.scalars =~= gab_smooth_launch(
            input,
            output,
            width,
            height,
            w_center,
            w1,
            w2,
        ).scalars
    );
    launch
}

} // verus!

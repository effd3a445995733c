//! Launch for the smoothing filter over three channels.

use crate::device::{
    area, spread, spread_over, word_array, words, Handle, Kernel, Launch, LaunchSpec, Scalar,
};
use crate::float::Float32;
use vstd::prelude::*;

verus! {

/// The launch that [`gab_smooth_3ch`] describes.
pub open spec fn gab_smooth_3ch_launch(
    input_x: Handle,
    input_y: Handle,
    input_b: Handle,
    output_x: Handle,
    output_y: Handle,
    output_b: Handle,
    width: u32,
    height: u32,
    w_center: Float32,
    w1: Float32,
    w2: Float32,
) -> LaunchSpec {
    LaunchSpec {
        kernel: Kernel::GabSmooth3ch,
        grid: spread(width * height, 256),
        arrays: seq![
            words(input_x, width * height),
            words(input_y, width * height),
            words(input_b, width * height),
            words(output_x, width * height),
            words(output_y, width * height),
            words(output_b, width * height),
        ],
        scalars: seq![
            Scalar::U32(width),
            Scalar::U32(height),
            Scalar::F32(w_center),
            Scalar::F32(w1),
            Scalar::F32(w2),
        ],
    }
}

/// The 3x3 smoothing filter over three channels at once.
pub fn gab_smooth_3ch(
    input_x: Handle,
    input_y: Handle,
    input_b: Handle,
    output_x: Handle,
    output_y: Handle,
    output_b: Handle,
    width: u32,
    height: u32,
    w_center: Float32,
    w1: Float32,
    w2: Float32,
) -> (launch: Launch)
    requires
        width * height <= u32::MAX,
    ensures
        launch@ == gab_smooth_3ch_launch(
            input_x,
            input_y,
            input_b,
            output_x,
            output_y,
            output_b,
            width,
            height,
            w_center,
            w1,
            w2,
        ),
{
    let launch: Launch = Launch {
        kernel: Kernel::GabSmooth3ch,
        grid: spread_over(width * height, 256),
        arrays: vec![
            word_array(input_x, area(width, height)),
            word_array(input_y, area(width, height)),
            word_array(input_b, area(width, height)),
            word_array(output_x, area(width, height)),
            word_array(output_y, area(width, height)),
            word_array(output_b, area(width, height)),
        ],
        scalars: vec![
            Scalar::U32(width),
            Scalar::U32(height),
            Scalar::F32(w_center),
            Scalar::F32(w1),
            Scalar::F32(w2),
        ],
    };
    assert(
        launch@.arrays =~= gab_smooth_3ch_launch(
            input_x,
            input_y,
            input_b,
            output_x,
            output_y,
            output_b,
            width,
            height,
            w_center,
            w1,
            w2,
        ).arrays
    );
    assert(
        launch@.scalars =~= gab_smooth_3ch_launch(
            input_x,
            input_y,
            input_b,
            output_x,
            output_y,
            output_b,
            width,
            height,
            w_center,
            w1,
            w2,
        ).scalars
    );
    launch
}

} // verus!

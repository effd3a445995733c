//! Launches for the sharpening filter.

use crate::device::{
    area, spread, spread_over, word_array, words, Handle, Kernel, Launch, LaunchSpec, Scalar,
};
use crate::float::Float32;
use vstd::prelude::*;

verus! {

/// The launch that [`gaborish_5x5`] describes.
pub open spec fn gaborish_5x5_launch(
    input: Handle,
    output: Handle,
    width: u32,
    height: u32,
    wc: Float32,
    wr: Float32,
    wd: Float32,
    w_big_r: Float32,
    wl: Float32,
    w_big_d: Float32,
) -> LaunchSpec {
    LaunchSpec {
        kernel: Kernel::Gaborish5x5,
        grid: spread(width * height, 256),
        arrays: seq![
            words(input, width * height),
            words(output, width * height),
        ],
        scalars: seq![
            Scalar::U32(width),
            Scalar::U32(height),
            Scalar::F32(wc),
            Scalar::F32(wr),
            Scalar::F32(wd),
            Scalar::F32(w_big_r),
            Scalar::F32(wl),
            Scalar::F32(w_big_d),
        ],
    }
}

/// The 5x5 sharpening filter that undoes the smoothing.
pub fn gaborish_5x5(
    input: Handle,
    output: Handle,
    width: u32,
    height: u32,
    wc: Float32,
    wr: Float32,
    wd: Float32,
    w_big_r: Float32,
    wl: Float32,
    w_big_d: Float32,
) -> (launch: Launch)
    requires
        width * height <= u32::MAX,
    ensures
        launch@ == gaborish_5x5_launch(
            input,
            output,
            width,
            height,
            wc,
            wr,
            wd,
            w_big_r,
            wl,
            w_big_d,
        ),
{
    let launch: Launch = Launch {
        kernel: Kernel::Gaborish5x5,
        grid: spread_over(width * height, 256),
        arrays: vec![
            word_array(input, area(width, height)),
            word_array(output, area(width, height)),
        ],
        scalars: vec![
            Scalar::U32(width),
            Scalar::U32(height),
            Scalar::F32(wc),
            Scalar::F32(wr),
            Scalar::F32(wd),
            Scalar::F32(w_big_r),
            Scalar::F32(wl),
            Scalar::F32(w_big_d),
        ],
    };
    assert(
        launch@.arrays =~= gaborish_5x5_launch(
            input,
            output,
            width,
            height,
            wc,
            wr,
            wd,
            w_big_r,
            wl,
            w_big_d,
        ).arrays
    );
    assert(
        launch@.scalars =~= gaborish_5x5_launch(
            input,
            output,
            width,
            height,
            wc,
            wr,
            wd,
            w_big_r,
            wl,
            w_big_d,
        ).scalars
    );
    launch
}

/// The launch that [`gaborish_5x5_3ch`] describes.
pub open spec fn gaborish_5x5_3ch_launch(
    in_x: Handle,
    in_y: Handle,
    in_b: Handle,
    out_x: Handle,
    out_y: Handle,
    out_b: Handle,
    width: u32,
    height: u32,
    wc: Float32,
    wr: Float32,
    wd: Float32,
    w_big_r: Float32,
    wl: Float32,
    w_big_d: Float32,
) -> LaunchSpec {
    LaunchSpec {
        kernel: Kernel::Gaborish5x53ch,
        grid: spread(width * height, 256),
        arrays: seq![
            words(in_x, width * height),
            words(in_y, width * height),
            words(in_b, width * height),
            words(out_x, width * height),
            words(out_y, width * height),
            words(out_b, width * height),
        ],
        scalars: seq![
            Scalar::U32(width),
            Scalar::U32(height),
            Scalar::F32(wc),
            Scalar::F32(wr),
            Scalar::F32(wd),
            Scalar::F32(w_big_r),
            Scalar::F32(wl),
            Scalar::F32(w_big_d),
        ],
    }
}

/// The 5x5 sharpening filter over three channels at once.
pub fn gaborish_5x5_3ch(
    in_x: Handle,
    in_y: Handle,
    in_b: Handle,
    out_x: Handle,
    out_y: Handle,
    out_b: Handle,
    width: u32,
    height: u32,
    wc: Float32,
    wr: Float32,
    wd: Float32,
    w_big_r: Float32,
    wl: Float32,
    w_big_d: Float32,
) -> (launch: Launch)
    requires
        width * height <= u32::MAX,
    ensures
        launch@ == gaborish_5x5_3ch_launch(
            in_x,
            in_y,
            in_b,
            out_x,
            out_y,
            out_b,
            width,
            height,
            wc,
            wr,
            wd,
            w_big_r,
            wl,
            w_big_d,
        ),
{
    let launch: Launch = Launch {
        kernel: Kernel::Gaborish5x53ch,
        grid: spread_over(width * height, 256),
        arrays: vec![
            word_array(in_x, area(width, height)),
            word_array(in_y, area(width, height)),
            word_array(in_b, area(width, height)),
            word_array(out_x, area(width, height)),
            word_array(out_y, area(width, height)),
            word_array(out_b, area(width, height)),
        ],
        scalars: vec![
            Scalar::U32(width),
            Scalar::U32(height),
            Scalar::F32(wc),
            Scalar::F32(wr),
            Scalar::F32(wd),
            Scalar::F32(w_big_r),
            Scalar::F32(wl),
            Scalar::F32(w_big_d),
        ],
    };
    assert(
        launch@.arrays =~= gaborish_5x5_3ch_launch(
            in_x,
            in_y,
            in_b,
            out_x,
            out_y,
            out_b,
            width,
            height,
            wc,
            wr,
            wd,
            w_big_r,
            wl,
            w_big_d,
        ).arrays
    );
    assert(
        launch@.scalars =~= gaborish_5x5_3ch_launch(
            in_x,
            in_y,
            in_b,
            out_x,
            out_y,
            out_b,
            width,
            height,
            wc,
            wr,
            wd,
            w_big_r,
            wl,
            w_big_d,
        ).scalars
    );
    launch
}

} // verus!

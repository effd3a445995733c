//! Launch that turns bytes into padded linear planes.

use crate::device::{
    area, byte_array, bytes, spread, spread_over, word_array, words, Handle, Kernel, Launch,
    LaunchSpec, Scalar,
};
use vstd::prelude::*;

verus! {

/// The launch that [`u8_rgb_to_linear_planar_padded`] describes.
pub open spec fn u8_rgb_to_linear_planar_padded_launch(
    src: Handle,
    out_r: Handle,
    out_g: Handle,
    out_b: Handle,
    src_width: u32,
    src_height: u32,
    padded_width: u32,
    padded_height: u32,
) -> LaunchSpec {
    LaunchSpec {
        kernel: Kernel::U8RgbToLinearPlanarPadded,
        grid: spread((padded_width * padded_height) as u32 as int, 256),
        arrays: seq![
            bytes(src, src_width * src_height * 3),
            words(out_r, padded_width * padded_height),
            words(out_g, padded_width * padded_height),
            words(out_b, padded_width * padded_height),
        ],
        scalars: seq![
            Scalar::U32(src_width),
            Scalar::U32(src_height),
            Scalar::U32(padded_width),
        ],
    }
}

/// Turns interleaved sRGB bytes into three padded planes of linear light.
pub fn u8_rgb_to_linear_planar_padded(
    src: Handle,
    out_r: Handle,
    out_g: Handle,
    out_b: Handle,
    src_width: u32,
    src_height: u32,
    padded_width: u32,
    padded_height: u32,
) -> (launch: Launch)
    requires
        src_width * src_height * 3 <= u64::MAX,
    ensures
        launch@ == u8_rgb_to_linear_planar_padded_launch(
            src,
            out_r,
            out_g,
            out_b,
            src_width,
            src_height,
            padded_width,
            padded_height,
        ),
{
    let n: u64 = area(padded_width, padded_height);
    let n_src: u64 = area(src_width, src_height) * 3;
    let launch: Launch = Launch {
        kernel: Kernel::U8RgbToLinearPlanarPadded,
        grid: spread_over(n as u32, 256),
        arrays: vec![
            byte_array(src, n_src),
            word_array(out_r, area(padded_width, padded_height)),
            word_array(out_g, area(padded_width, padded_height)),
            word_array(out_b, area(padded_width, padded_height)),
        ],
        scalars: vec![
            Scalar::U32(src_width),
            Scalar::U32(src_height),
            Scalar::U32(padded_width),
        ],
    };
    assert(
        launch@.arrays =~= u8_rgb_to_linear_planar_padded_launch(
            src,
            out_r,
            out_g,
            out_b,
            src_width,
            src_height,
            padded_width,
            padded_height,
        ).arrays
    );
    assert(
        launch@.scalars =~= u8_rgb_to_linear_planar_padded_launch(
            src,
            out_r,
            out_g,
            out_b,
            src_width,
            src_height,
            padded_width,
            padded_height,
        ).scalars
    );
    launch
}

} // verus!

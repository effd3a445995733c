//! Launch for the Wiener denoiser.

use crate::device::{
    area, spread, spread_over, word_array, words, Handle, Kernel, Launch, LaunchSpec, Scalar,
};
use crate::float::Float32;
use vstd::prelude::*;

verus! {

/// The launch that [`denoise`] describes.
pub open spec fn denoise_launch(
    orig: Handle,
    y_channel: Handle,
    noise_lut: Handle,
    output: Handle,
    width: u32,
    height: u32,
    denoise_scale: Float32,
) -> LaunchSpec {
    LaunchSpec {
        kernel: Kernel::Denoise,
        grid: spread(width * height, 256),
        arrays: seq![
            words(orig, width * height),
            words(y_channel, width * height),
            words(noise_lut, 8),
            words(output, width * height),
        ],
        scalars: seq![
            Scalar::U32(width),
            Scalar::U32(height),
            Scalar::F32(denoise_scale),
        ],
    }
}

/// Denoises a plane by a table of eight noise levels.
pub fn denoise(
    orig: Handle,
    y_channel: Handle,
    noise_lut: Handle,
    output: Handle,
    width: u32,
    height: u32,
    denoise_scale: Float32,
) -> (launch: Launch)
    requires
        width * height <= u32::MAX,
    ensures
        launch@ == denoise_launch(orig, y_channel, noise_lut, output, width, height, denoise_scale),
{
    let launch: Launch = Launch {
        kernel: Kernel::Denoise,
        grid: spread_over(width * height, 256),
        arrays: vec![
            word_array(orig, area(width, height)),
            word_array(y_channel, area(width, height)),
            word_array(noise_lut, 8),
            word_array(output, area(width, height)),
        ],
        scalars: vec![
            Scalar::U32(width),
            Scalar::U32(height),
            Scalar::F32(denoise_scale),
        ],
    };
    assert(
        launch@.arrays =~= denoise_launch(
            orig,
            y_channel,
            noise_lut,
            output,
            width,
            height,
            denoise_scale,
        ).arrays
    );
    assert(
        launch@.scalars =~= denoise_launch(
            orig,
            y_channel,
            noise_lut,
            output,
            width,
            height,
            denoise_scale,
        ).scalars
    );
    launch
}

} // verus!

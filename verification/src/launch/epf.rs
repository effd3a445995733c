//! Launches for padding and for the edge-preserving filter.

use crate::device::{
    area, spread, spread_over, word_array, words, Handle, Kernel, Launch, LaunchSpec, Scalar,
};
use crate::float::Float32;
use vstd::prelude::*;

verus! {

/// The launch that [`pad_plane`] describes.
pub open spec fn pad_plane_launch(
    src: Handle,
    dst: Handle,
    width: u32,
    height: u32,
    pad: u32,
) -> LaunchSpec {
    LaunchSpec {
        kernel: Kernel::PadPlane,
        grid: spread(((width + 2 * pad) * (height + 2 * pad)) as u32 as int, 256),
        arrays: seq![
            words(src, width * height),
            words(dst, (width + 2 * pad) * (height + 2 * pad)),
        ],
        scalars: seq![
            Scalar::U32(width),
            Scalar::U32(height),
            Scalar::U32(pad),
        ],
    }
}

/// Pads a plane by `pad` pixels on every side.
pub fn pad_plane(
    src: Handle,
    dst: Handle,
    width: u32,
    height: u32,
    pad: u32,
) -> (launch: Launch)
    requires
        width + 2 * pad <= u32::MAX,
        height + 2 * pad <= u32::MAX,
    ensures
        launch@ == pad_plane_launch(src, dst, width, height, pad),
{
    let n: u64 = area(width + 2 * pad, height + 2 * pad);
    let launch: Launch = Launch {
        kernel: Kernel::PadPlane,
        grid: spread_over(n as u32, 256),
        arrays: vec![
            word_array(src, area(width, height)),
            word_array(dst, n),
        ],
        scalars: vec![
            Scalar::U32(width),
            Scalar::U32(height),
            Scalar::U32(pad),
        ],
    };
    assert(launch@.arrays =~= pad_plane_launch(src, dst, width, height, pad).arrays);
    assert(launch@.scalars =~= pad_plane_launch(src, dst, width, height, pad).scalars);
    launch
}

/// The launch that [`epf_step0`] describes.
pub open spec fn epf_step0_launch(
    in_x: Handle,
    in_y: Handle,
    in_b: Handle,
    out_x: Handle,
    out_y: Handle,
    out_b: Handle,
    inv_sigma: Handle,
    width: u32,
    height: u32,
    xsize_blocks: u32,
    ysize_blocks: u32,
    pad: u32,
    sigma_scale: Float32,
    border_sigma_mul: Float32,
) -> LaunchSpec {
    LaunchSpec {
        kernel: Kernel::EpfStep0,
        grid: spread((width * height) as u32 as int, 256),
        arrays: seq![
            words(in_x, (width + 2 * pad) * (height + 2 * pad)),
            words(in_y, (width + 2 * pad) * (height + 2 * pad)),
            words(in_b, (width + 2 * pad) * (height + 2 * pad)),
            words(out_x, width * height),
            words(out_y, width * height),
            words(out_b, width * height),
            words(inv_sigma, xsize_blocks * ysize_blocks),
        ],
        scalars: seq![
            Scalar::U32(width),
            Scalar::U32(height),
            Scalar::U32(xsize_blocks),
            Scalar::U32((width + 2 * pad) as u32),
            Scalar::U32(pad),
            Scalar::F32(sigma_scale),
            Scalar::F32(border_sigma_mul),
        ],
    }
}

/// The first pass of the edge-preserving filter, from padded planes.
pub fn epf_step0(
    in_x: Handle,
    in_y: Handle,
    in_b: Handle,
    out_x: Handle,
    out_y: Handle,
    out_b: Handle,
    inv_sigma: Handle,
    width: u32,
    height: u32,
    xsize_blocks: u32,
    ysize_blocks: u32,
    pad: u32,
    sigma_scale: Float32,
    border_sigma_mul: Float32,
) -> (launch: Launch)
    requires
        width + 2 * pad <= u32::MAX,
        height + 2 * pad <= u32::MAX,
    ensures
        launch@ == epf_step0_launch(
            in_x,
            in_y,
            in_b,
            out_x,
            out_y,
            out_b,
            inv_sigma,
            width,
            height,
            xsize_blocks,
            ysize_blocks,
            pad,
            sigma_scale,
            border_sigma_mul,
        ),
{
    let n: u64 = area(width, height);
    let n_in: u64 = area(width + 2 * pad, height + 2 * pad);
    let launch: Launch = Launch {
        kernel: Kernel::EpfStep0,
        grid: spread_over(n as u32, 256),
        arrays: vec![
            word_array(in_x, n_in),
            word_array(in_y, n_in),
            word_array(in_b, n_in),
            word_array(out_x, area(width, height)),
            word_array(out_y, area(width, height)),
            word_array(out_b, area(width, height)),
            word_array(inv_sigma, area(xsize_blocks, ysize_blocks)),
        ],
        scalars: vec![
            Scalar::U32(width),
            Scalar::U32(height),
            Scalar::U32(xsize_blocks),
            Scalar::U32((width + 2 * pad) as u32),
            Scalar::U32(pad),
            Scalar::F32(sigma_scale),
            Scalar::F32(border_sigma_mul),
        ],
    };
    assert(
        launch@.arrays =~= epf_step0_launch(
            in_x,
            in_y,
            in_b,
            out_x,
            out_y,
            out_b,
            inv_sigma,
            width,
            height,
            xsize_blocks,
            ysize_blocks,
            pad,
            sigma_scale,
            border_sigma_mul,
        ).arrays
    );
    assert(
        launch@.scalars =~= epf_step0_launch(
            in_x,
            in_y,
            in_b,
            out_x,
            out_y,
            out_b,
            inv_sigma,
            width,
            height,
            xsize_blocks,
            ysize_blocks,
            pad,
            sigma_scale,
            border_sigma_mul,
        ).scalars
    );
    launch
}

/// The launch that [`epf_step1`] describes.
pub open spec fn epf_step1_launch(
    in_x: Handle,
    in_y: Handle,
    in_b: Handle,
    out_x: Handle,
    out_y: Handle,
    out_b: Handle,
    inv_sigma: Handle,
    width: u32,
    height: u32,
    xsize_blocks: u32,
    ysize_blocks: u32,
    pad: u32,
    sigma_scale: Float32,
    border_sigma_mul: Float32,
) -> LaunchSpec {
    LaunchSpec {
        kernel: Kernel::EpfStep1,
        grid: spread((width * height) as u32 as int, 256),
        arrays: seq![
            words(in_x, (width + 2 * pad) * (height + 2 * pad)),
            words(in_y, (width + 2 * pad) * (height + 2 * pad)),
            words(in_b, (width + 2 * pad) * (height + 2 * pad)),
            words(out_x, width * height),
            words(out_y, width * height),
            words(out_b, width * height),
            words(inv_sigma, xsize_blocks * ysize_blocks),
        ],
        scalars: seq![
            Scalar::U32(width),
            Scalar::U32(height),
            Scalar::U32(xsize_blocks),
            Scalar::U32((width + 2 * pad) as u32),
            Scalar::U32(pad),
            Scalar::F32(sigma_scale),
            Scalar::F32(border_sigma_mul),
        ],
    }
}

/// The second pass of the edge-preserving filter, from padded planes.
pub fn epf_step1(
    in_x: Handle,
    in_y: Handle,
    in_b: Handle,
    out_x: Handle,
    out_y: Handle,
    out_b: Handle,
    inv_sigma: Handle,
    width: u32,
    height: u32,
    xsize_blocks: u32,
    ysize_blocks: u32,
    pad: u32,
    sigma_scale: Float32,
    border_sigma_mul: Float32,
) -> (launch: Launch)
    requires
        width + 2 * pad <= u32::MAX,
        height + 2 * pad <= u32::MAX,
    ensures
        launch@ == epf_step1_launch(
            in_x,
            in_y,
            in_b,
            out_x,
            out_y,
            out_b,
            inv_sigma,
            width,
            height,
            xsize_blocks,
            ysize_blocks,
            pad,
            sigma_scale,
            border_sigma_mul,
        ),
{
    let n: u64 = area(width, height);
    let n_in: u64 = area(width + 2 * pad, height + 2 * pad);
    let launch: Launch = Launch {
        kernel: Kernel::EpfStep1,
        grid: spread_over(n as u32, 256),
        arrays: vec![
            word_array(in_x, n_in),
            word_array(in_y, n_in),
            word_array(in_b, n_in),
            word_array(out_x, area(width, height)),
            word_array(out_y, area(width, height)),
            word_array(out_b, area(width, height)),
            word_array(inv_sigma, area(xsize_blocks, ysize_blocks)),
        ],
        scalars: vec![
            Scalar::U32(width),
            Scalar::U32(height),
            Scalar::U32(xsize_blocks),
            Scalar::U32((width + 2 * pad) as u32),
            Scalar::U32(pad),
            Scalar::F32(sigma_scale),
            Scalar::F32(border_sigma_mul),
        ],
    };
    assert(
        launch@.arrays =~= epf_step1_launch(
            in_x,
            in_y,
            in_b,
            out_x,
            out_y,
            out_b,
            inv_sigma,
            width,
            height,
            xsize_blocks,
            ysize_blocks,
            pad,
            sigma_scale,
            border_sigma_mul,
        ).arrays
    );
    assert(
        launch@.scalars =~= epf_step1_launch(
            in_x,
            in_y,
            in_b,
            out_x,
            out_y,
            out_b,
            inv_sigma,
            width,
            height,
            xsize_blocks,
            ysize_blocks,
            pad,
            sigma_scale,
            border_sigma_mul,
        ).scalars
    );
    launch
}

/// The launch that [`epf_step2`] describes.
pub open spec fn epf_step2_launch(
    in_x: Handle,
    in_y: Handle,
    in_b: Handle,
    out_x: Handle,
    out_y: Handle,
    out_b: Handle,
    inv_sigma: Handle,
    width: u32,
    height: u32,
    xsize_blocks: u32,
    ysize_blocks: u32,
    pad: u32,
    sigma_scale: Float32,
    border_sigma_mul: Float32,
) -> LaunchSpec {
    LaunchSpec {
        kernel: Kernel::EpfStep2,
        grid: spread((width * height) as u32 as int, 256),
        arrays: seq![
            words(in_x, (width + 2 * pad) * (height + 2 * pad)),
            words(in_y, (width + 2 * pad) * (height + 2 * pad)),
            words(in_b, (width + 2 * pad) * (height + 2 * pad)),
            words(out_x, width * height),
            words(out_y, width * height),
            words(out_b, width * height),
            words(inv_sigma, xsize_blocks * ysize_blocks),
        ],
        scalars: seq![
            Scalar::U32(width),
            Scalar::U32(height),
            Scalar::U32(xsize_blocks),
            Scalar::U32((width + 2 * pad) as u32),
            Scalar::U32(pad),
            Scalar::F32(sigma_scale),
            Scalar::F32(border_sigma_mul),
        ],
    }
}

/// The third pass of the edge-preserving filter, from padded planes.
pub fn epf_step2(
    in_x: Handle,
    in_y: Handle,
    in_b: Handle,
    out_x: Handle,
    out_y: Handle,
    out_b: Handle,
    inv_sigma: Handle,
    width: u32,
    height: u32,
    xsize_blocks: u32,
    ysize_blocks: u32,
    pad: u32,
    sigma_scale: Float32,
    border_sigma_mul: Float32,
) -> (launch: Launch)
    requires
        width + 2 * pad <= u32::MAX,
        height + 2 * pad <= u32::MAX,
    ensures
        launch@ == epf_step2_launch(
            in_x,
            in_y,
            in_b,
            out_x,
            out_y,
            out_b,
            inv_sigma,
            width,
            height,
            xsize_blocks,
            ysize_blocks,
            pad,
            sigma_scale,
            border_sigma_mul,
        ),
{
    let n: u64 = area(width, height);
    let n_in: u64 = area(width + 2 * pad, height + 2 * pad);
    let launch: Launch = Launch {
        kernel: Kernel::EpfStep2,
        grid: spread_over(n as u32, 256),
        arrays: vec![
            word_array(in_x, n_in),
            word_array(in_y, n_in),
            word_array(in_b, n_in),
            word_array(out_x, area(width, height)),
            word_array(out_y, area(width, height)),
            word_array(out_b, area(width, height)),
            word_array(inv_sigma, area(xsize_blocks, ysize_blocks)),
        ],
        scalars: vec![
            Scalar::U32(width),
            Scalar::U32(height),
            Scalar::U32(xsize_blocks),
            Scalar::U32((width + 2 * pad) as u32),
            Scalar::U32(pad),
            Scalar::F32(sigma_scale),
            Scalar::F32(border_sigma_mul),
        ],
    };
    assert(
        launch@.arrays =~= epf_step2_launch(
            in_x,
            in_y,
            in_b,
            out_x,
            out_y,
            out_b,
            inv_sigma,
            width,
            height,
            xsize_blocks,
            ysize_blocks,
            pad,
            sigma_scale,
            border_sigma_mul,
        ).arrays
    );
    assert(
        launch@.scalars =~= epf_step2_launch(
            in_x,
            in_y,
            in_b,
            out_x,
            out_y,
            out_b,
            inv_sigma,
            width,
            height,
            xsize_blocks,
            ysize_blocks,
            pad,
            sigma_scale,
            border_sigma_mul,
        ).scalars
    );
    launch
}

} // verus!

//! Launches for adaptive quantization.

use crate::device::{
    area, spread, spread_over, word_array, words, Handle, Kernel, Launch, LaunchSpec, Scalar,
};
use crate::float::Float32;
use vstd::prelude::*;

verus! {

/// The launch that [`compute_pre_erosion`] describes.
pub open spec fn compute_pre_erosion_launch(
    xyb_y: Handle,
    output: Handle,
    xyb_y_n: u64,
    width: u32,
    height: u32,
    x0: u32,
    y_start: u32,
    pre_erosion_w: u32,
    pre_erosion_h: u32,
) -> LaunchSpec {
    LaunchSpec {
        kernel: Kernel::ComputePreErosion,
        grid: spread((pre_erosion_w * pre_erosion_h) as u32 as int, 64),
        arrays: seq![
            words(xyb_y, xyb_y_n as int),
            words(output, pre_erosion_w * pre_erosion_h),
        ],
        scalars: seq![
            Scalar::U32(width),
            Scalar::U32(height),
            Scalar::U32(x0),
            Scalar::U32(y_start),
            Scalar::U32(pre_erosion_w),
        ],
    }
}

/// The pre-erosion map of a tile, which is `pre_erosion_w` by `pre_erosion_h`
/// entries large.
pub fn compute_pre_erosion(
    xyb_y: Handle,
    output: Handle,
    xyb_y_n: u64,
    width: u32,
    height: u32,
    x0: u32,
    y_start: u32,
    pre_erosion_w: u32,
    pre_erosion_h: u32,
) -> (launch: Launch)
    ensures
        launch@ == compute_pre_erosion_launch(
            xyb_y,
            output,
            xyb_y_n,
            width,
            height,
            x0,
            y_start,
            pre_erosion_w,
            pre_erosion_h,
        ),
{
    let n: u64 = area(pre_erosion_w, pre_erosion_h);
    let launch: Launch = Launch {
        kernel: Kernel::ComputePreErosion,
        grid: spread_over(n as u32, 64),
        arrays: vec![
            word_array(xyb_y, xyb_y_n),
            word_array(output, area(pre_erosion_w, pre_erosion_h)),
        ],
        scalars: vec![
            Scalar::U32(width),
            Scalar::U32(height),
            Scalar::U32(x0),
            Scalar::U32(y_start),
            Scalar::U32(pre_erosion_w),
        ],
    };
    assert(
        launch@.arrays =~= compute_pre_erosion_launch(
            xyb_y,
            output,
            xyb_y_n,
            width,
            height,
            x0,
            y_start,
            pre_erosion_w,
            pre_erosion_h,
        ).arrays
    );
    assert(
        launch@.scalars =~= compute_pre_erosion_launch(
            xyb_y,
            output,
            xyb_y_n,
            width,
            height,
            x0,
            y_start,
            pre_erosion_w,
            pre_erosion_h,
        ).scalars
    );
    launch
}

/// The launch that [`per_block_modulations`] describes.
pub open spec fn per_block_modulations_launch(
    xyb_x: Handle,
    xyb_y: Handle,
    xyb_b: Handle,
    aq_map: Handle,
    xyb_n: u64,
    aq_map_n: u64,
    stride: u32,
    aq_map_stride: u32,
    rect_x0_blocks: u32,
    rect_y0_blocks: u32,
    rect_w_blocks: u32,
    rect_h_blocks: u32,
    butteraugli_target: Float32,
    scale: Float32,
) -> LaunchSpec {
    LaunchSpec {
        kernel: Kernel::PerBlockModulations,
        grid: spread(rect_w_blocks * rect_h_blocks, 64),
        arrays: seq![
            words(xyb_x, xyb_n as int),
            words(xyb_y, xyb_n as int),
            words(xyb_b, xyb_n as int),
            words(aq_map, aq_map_n as int),
        ],
        scalars: seq![
            Scalar::U32(stride),
            Scalar::U32(aq_map_stride),
            Scalar::U32(rect_x0_blocks),
            Scalar::U32(rect_y0_blocks),
            Scalar::U32(rect_w_blocks),
            Scalar::F32(butteraugli_target),
            Scalar::F32(scale),
        ],
    }
}

/// The per-block modulations of a rectangle of blocks, in place.
pub fn per_block_modulations(
    xyb_x: Handle,
    xyb_y: Handle,
    xyb_b: Handle,
    aq_map: Handle,
    xyb_n: u64,
    aq_map_n: u64,
    stride: u32,
    aq_map_stride: u32,
    rect_x0_blocks: u32,
    rect_y0_blocks: u32,
    rect_w_blocks: u32,
    rect_h_blocks: u32,
    butteraugli_target: Float32,
    scale: Float32,
) -> (launch: Launch)
    requires
        rect_w_blocks * rect_h_blocks <= u32::MAX,
    ensures
        launch@ == per_block_modulations_launch(
            xyb_x,
            xyb_y,
            xyb_b,
            aq_map,
            xyb_n,
            aq_map_n,
            stride,
            aq_map_stride,
            rect_x0_blocks,
            rect_y0_blocks,
            rect_w_blocks,
            rect_h_blocks,
            butteraugli_target,
            scale,
        ),
{
    let launch: Launch = Launch {
        kernel: Kernel::PerBlockModulations,
        grid: spread_over(rect_w_blocks * rect_h_blocks, 64),
        arrays: vec![
            word_array(xyb_x, xyb_n),
            word_array(xyb_y, xyb_n),
            word_array(xyb_b, xyb_n),
            word_array(aq_map, aq_map_n),
        ],
        scalars: vec![
            Scalar::U32(stride),
            Scalar::U32(aq_map_stride),
            Scalar::U32(rect_x0_blocks),
            Scalar::U32(rect_y0_blocks),
            Scalar::U32(rect_w_blocks),
            Scalar::F32(butteraugli_target),
            Scalar::F32(scale),
        ],
    };
    assert(
        launch@.arrays =~= per_block_modulations_launch(
            xyb_x,
            xyb_y,
            xyb_b,
            aq_map,
            xyb_n,
            aq_map_n,
            stride,
            aq_map_stride,
            rect_x0_blocks,
            rect_y0_blocks,
            rect_w_blocks,
            rect_h_blocks,
            butteraugli_target,
            scale,
        ).arrays
    );
    assert(
        launch@.scalars =~= per_block_modulations_launch(
            xyb_x,
            xyb_y,
            xyb_b,
            aq_map,
            xyb_n,
            aq_map_n,
            stride,
            aq_map_stride,
            rect_x0_blocks,
            rect_y0_blocks,
            rect_w_blocks,
            rect_h_blocks,
            butteraugli_target,
            scale,
        ).scalars
    );
    launch
}

} // verus!

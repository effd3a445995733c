//! What single launches leave in the buffers that they fill.

use crate::dataflow::{left, lemma_launched, lemma_stored, word, Bytes, Run};
use crate::device::{
    cube_each, cubes_for, spread, Element, Grid, Handle, Kernel, LaunchSpec, Recording, Scalar,
};
use crate::execution::{operands, writes, Operand};
use crate::float::Float32;
use crate::launch::cfl_collect::cfl_collect_launch;
use crate::launch::denoise::denoise_launch;
use crate::launch::dequant_simple::dequant_simple_launch;
use crate::launch::fused_dct8_3ch::fused_dct8_3ch_launch;
use crate::launch::fuzzy_erosion::fuzzy_erosion_launch;
use crate::launch::mask_for_ac_strategy::mask_for_ac_strategy_launch;
use crate::launch::pixel_loss_3ch::pixel_loss_3ch_launch;
use vstd::prelude::*;

verus! {

/// Items spread over cubes of threads get a thread each, and no cube goes
/// without an item, except the one that every grid has.
pub proof fn law_every_item_has_a_thread(n: int, threads: u32)
    requires
        0 <= n <= u32::MAX,
        threads > 0,
    ensures
        spread(n, threads) matches Grid::Cubes { count, threads: t } && {
            &&& t == threads
            &&& count >= 1
            &&& count * t >= n
            &&& count > 1 ==> (count - 1) * t < n
        },
{
    let t = threads as int;
    let q = n / t;
    let r = n % t;
    vstd::arithmetic::div_mod::lemma_fundamental_div_mod(n, t);
    assert(0 <= q <= n && (r > 0 ==> q < n)) by (nonlinear_arith)
        requires
            n == t * q + r,
            0 <= r < t,
            n >= 0,
            t >= 1,
    ;
    let count = cubes_for(n, t);
    crate::device::lemma_ceil(n, t);
    assert((q + 1) * t == t * q + t && q * t == t * q && (q - 1) * t == t * q - t)
        by (nonlinear_arith);
}

/// A buffer of 64-bit numbers as a kernel is given it.
pub open spec fn double(held: Bytes, len: int) -> Operand {
    Operand { held, len: len as u64, element: Element::Double }
}

/// A buffer that a launch fills holds what the kernel leaves there.
pub proof fn lemma_written(run: Run, s: Recording, l: LaunchSpec, k: int)
    requires
        0 <= k < l.arrays.len(),
        l.arrays[k].handle.id < run.memory(s).len(),
        writes(l.kernel, k),
        forall|j: int|
            k < j < l.arrays.len() ==> (#[trigger] l.arrays[j]).handle.id != l.arrays[k].handle.id,
    ensures
        run.held(s.launch(l), l.arrays[k].handle) == left(run.device, run.memory(s), l)[k],
{
    lemma_launched(run, s, l);
    lemma_stored(
        run.memory(s),
        l,
        left(run.device, run.memory(s), l),
        l.arrays.len() as int,
        k,
    );
}

/// A plane is denoised by itself, the luminance at each pixel and a table of eight
/// noise levels.
pub proof fn law_planes_are_denoised(
    run: Run,
    s: Recording,
    orig: Handle,
    y_channel: Handle,
    noise_lut: Handle,
    output: Handle,
    width: u32,
    height: u32,
    denoise_scale: Float32,
)
    requires
        output.id < run.memory(s).len(),
    ensures
        ({
            let l = denoise_launch(
                orig,
                y_channel,
                noise_lut,
                output,
                width,
                height,
                denoise_scale,
            );
            let made = (run.device.kernels)(
                Kernel::Denoise,
                spread(width * height, 256),
                seq![
                    word(run.held(s, orig), width * height),
                    word(run.held(s, y_channel), width * height),
                    word(run.held(s, noise_lut), 8),
                    word(run.held(s, output), width * height),
                ],
                seq![
                    Scalar::U32(width),
                    Scalar::U32(height),
                    Scalar::F32(denoise_scale),
                ],
            );
            &&& run.held(s.launch(l), output) == made[3]
        }),
{
    let l = denoise_launch(
        orig,
        y_channel,
        noise_lut,
        output,
        width,
        height,
        denoise_scale,
    );
    assert(operands(run.memory(s), l.arrays) =~= seq![
        word(run.held(s, orig), width * height),
        word(run.held(s, y_channel), width * height),
        word(run.held(s, noise_lut), 8),
        word(run.held(s, output), width * height),
    ]);
    assert(l.scalars =~= seq![
        Scalar::U32(width),
        Scalar::U32(height),
        Scalar::F32(denoise_scale),
    ]);
    lemma_written(run, s, l, 3);
}

/// The mask for the choice of transforms is made of the map of quantization
/// scales, number by number.
pub proof fn law_maps_become_masks(
    run: Run,
    s: Recording,
    aq_map: Handle,
    out: Handle,
    n: u32,
)
    requires
        out.id < run.memory(s).len(),
    ensures
        ({
            let l = mask_for_ac_strategy_launch(
                aq_map,
                out,
                n,
            );
            let made = (run.device.kernels)(
                Kernel::MaskForAcStrategy,
                spread(n as int, 256),
                seq![
                    word(run.held(s, aq_map), n as int),
                    word(run.held(s, out), n as int),
                ],
                seq![
                    Scalar::U32(n),
                ],
            );
            &&& run.held(s.launch(l), out) == made[1]
        }),
{
    let l = mask_for_ac_strategy_launch(
        aq_map,
        out,
        n,
    );
    assert(operands(run.memory(s), l.arrays) =~= seq![
        word(run.held(s, aq_map), n as int),
        word(run.held(s, out), n as int),
    ]);
    assert(l.scalars =~= seq![
        Scalar::U32(n),
    ]);
    lemma_written(run, s, l, 1);
}

/// A map is eroded into a smaller one, by four weights.
pub proof fn law_planes_are_eroded(
    run: Run,
    s: Recording,
    src: Handle,
    output: Handle,
    src_w: u32,
    src_h: u32,
    from_x0: u32,
    from_y0: u32,
    out_w: u32,
    out_h: u32,
    k_mul: [Float32; 4],
)
    requires
        output.id < run.memory(s).len(),
    ensures
        ({
            let l = fuzzy_erosion_launch(
                src,
                output,
                src_w,
                src_h,
                from_x0,
                from_y0,
                out_w,
                out_h,
                k_mul,
            );
            let made = (run.device.kernels)(
                Kernel::FuzzyErosion,
                spread(out_w * out_h, 256),
                seq![
                    word(run.held(s, src), src_w * src_h),
                    word(run.held(s, output), out_w * out_h),
                ],
                seq![
                    Scalar::U32(src_w),
                    Scalar::U32(src_h),
                    Scalar::U32(from_x0),
                    Scalar::U32(from_y0),
                    Scalar::U32(out_w),
                    Scalar::U32(out_h),
                    Scalar::F32(k_mul@[0]),
                    Scalar::F32(k_mul@[1]),
                    Scalar::F32(k_mul@[2]),
                    Scalar::F32(k_mul@[3]),
                ],
            );
            &&& run.held(s.launch(l), output) == made[1]
        }),
{
    let l = fuzzy_erosion_launch(
        src,
        output,
        src_w,
        src_h,
        from_x0,
        from_y0,
        out_w,
        out_h,
        k_mul,
    );
    assert(operands(run.memory(s), l.arrays) =~= seq![
        word(run.held(s, src), src_w * src_h),
        word(run.held(s, output), out_w * out_h),
    ]);
    assert(l.scalars =~= seq![
        Scalar::U32(src_w),
        Scalar::U32(src_h),
        Scalar::U32(from_x0),
        Scalar::U32(from_y0),
        Scalar::U32(out_w),
        Scalar::U32(out_h),
        Scalar::F32(k_mul@[0]),
        Scalar::F32(k_mul@[1]),
        Scalar::F32(k_mul@[2]),
        Scalar::F32(k_mul@[3]),
    ]);
    lemma_written(run, s, l, 1);
}

/// Quantized blocks are multiplied with weights of their own.
pub proof fn law_blocks_are_weighed(
    run: Run,
    s: Recording,
    quant: Handle,
    weights: Handle,
    output: Handle,
    num_blocks: u32,
    block_size: u32,
)
    requires
        output.id < run.memory(s).len(),
    ensures
        ({
            let l = dequant_simple_launch(
                quant,
                weights,
                output,
                num_blocks,
                block_size,
            );
            let made = (run.device.kernels)(
                Kernel::DequantSimple,
                cube_each(num_blocks, 1),
                seq![
                    word(run.held(s, quant), num_blocks * block_size),
                    word(run.held(s, weights), num_blocks * block_size),
                    word(run.held(s, output), num_blocks * block_size),
                ],
                seq![
                    Scalar::U32(block_size),
                ],
            );
            &&& run.held(s.launch(l), output) == made[2]
        }),
{
    let l = dequant_simple_launch(
        quant,
        weights,
        output,
        num_blocks,
        block_size,
    );
    assert(operands(run.memory(s), l.arrays) =~= seq![
        word(run.held(s, quant), num_blocks * block_size),
        word(run.held(s, weights), num_blocks * block_size),
        word(run.held(s, output), num_blocks * block_size),
    ]);
    assert(l.scalars =~= seq![
        Scalar::U32(block_size),
    ]);
    lemma_written(run, s, l, 2);
}

/// The pixel losses of three channels are made of the errors of each and one
/// mask.
pub proof fn law_losses_are_of_their_channels(
    run: Run,
    s: Recording,
    pixel_error_x: Handle,
    pixel_error_y: Handle,
    pixel_error_b: Handle,
    mask: Handle,
    mask_row_base: Handle,
    output_x: Handle,
    output_y: Handle,
    output_b: Handle,
    err_floats: u64,
    mask_floats: u64,
    n_blocks: u32,
    mask_stride: u32,
    mask_offset_x: Float32,
    mask_offset_y: Float32,
    mask_offset_b: Float32,
    block_width: u32,
    block_height: u32,
)
    requires
        output_x.id < run.memory(s).len(),
        output_y.id < run.memory(s).len(),
        output_b.id < run.memory(s).len(),
        output_x.id != output_y.id,
        output_x.id != output_b.id,
        output_y.id != output_b.id,
    ensures
        ({
            let l = pixel_loss_3ch_launch(
                pixel_error_x,
                pixel_error_y,
                pixel_error_b,
                mask,
                mask_row_base,
                output_x,
                output_y,
                output_b,
                err_floats,
                mask_floats,
                n_blocks,
                mask_stride,
                mask_offset_x,
                mask_offset_y,
                mask_offset_b,
                block_width,
                block_height,
            );
            let made = (run.device.kernels)(
                Kernel::PixelLoss3ch,
                spread(n_blocks as int, 64),
                seq![
                    word(run.held(s, pixel_error_x), err_floats as int),
                    word(run.held(s, pixel_error_y), err_floats as int),
                    word(run.held(s, pixel_error_b), err_floats as int),
                    word(run.held(s, mask), mask_floats as int),
                    word(run.held(s, mask_row_base), n_blocks as int),
                    double(run.held(s, output_x), n_blocks as int),
                    double(run.held(s, output_y), n_blocks as int),
                    double(run.held(s, output_b), n_blocks as int),
                ],
                seq![
                    Scalar::U32(mask_stride),
                    Scalar::F32(mask_offset_x),
                    Scalar::F32(mask_offset_y),
                    Scalar::F32(mask_offset_b),
                    Scalar::U32(block_width),
                    Scalar::U32(block_height),
                ],
            );
            &&& run.held(s.launch(l), output_x) == made[5]
            &&& run.held(s.launch(l), output_y) == made[6]
            &&& run.held(s.launch(l), output_b) == made[7]
        }),
{
    let l = pixel_loss_3ch_launch(
        pixel_error_x,
        pixel_error_y,
        pixel_error_b,
        mask,
        mask_row_base,
        output_x,
        output_y,
        output_b,
        err_floats,
        mask_floats,
        n_blocks,
        mask_stride,
        mask_offset_x,
        mask_offset_y,
        mask_offset_b,
        block_width,
        block_height,
    );
    assert(operands(run.memory(s), l.arrays) =~= seq![
        word(run.held(s, pixel_error_x), err_floats as int),
        word(run.held(s, pixel_error_y), err_floats as int),
        word(run.held(s, pixel_error_b), err_floats as int),
        word(run.held(s, mask), mask_floats as int),
        word(run.held(s, mask_row_base), n_blocks as int),
        double(run.held(s, output_x), n_blocks as int),
        double(run.held(s, output_y), n_blocks as int),
        double(run.held(s, output_b), n_blocks as int),
    ]);
    assert(l.scalars =~= seq![
        Scalar::U32(mask_stride),
        Scalar::F32(mask_offset_x),
        Scalar::F32(mask_offset_y),
        Scalar::F32(mask_offset_b),
        Scalar::U32(block_width),
        Scalar::U32(block_height),
    ]);
    lemma_written(run, s, l, 5);
    lemma_written(run, s, l, 6);
    lemma_written(run, s, l, 7);
}

/// What chroma is fitted to luma by is collected from the coefficients of the
/// three channels: for X from those of Y and X, for B from those of Y and B.
pub proof fn law_factors_are_collected_from_coefficients(
    run: Run,
    s: Recording,
    dct_y: Handle,
    dct_x: Handle,
    dct_b: Handle,
    inv_qm_x: Handle,
    inv_qm_b: Handle,
    m_yx: Handle,
    s_x: Handle,
    m_yb: Handle,
    s_b: Handle,
    num_tiles: u32,
    in_floats: u64,
    out_floats: u64,
    xsize_blocks: u32,
    ysize_blocks: u32,
    gpu_xsize_blocks: u32,
    xsize_tiles: u32,
)
    requires
        m_yx.id < run.memory(s).len(),
        s_x.id < run.memory(s).len(),
        m_yb.id < run.memory(s).len(),
        s_b.id < run.memory(s).len(),
        m_yx.id != s_x.id,
        m_yx.id != m_yb.id,
        m_yx.id != s_b.id,
        s_x.id != m_yb.id,
        s_x.id != s_b.id,
        m_yb.id != s_b.id,
    ensures
        ({
            let l = cfl_collect_launch(
                dct_y,
                dct_x,
                dct_b,
                inv_qm_x,
                inv_qm_b,
                m_yx,
                s_x,
                m_yb,
                s_b,
                num_tiles,
                in_floats,
                out_floats,
                xsize_blocks,
                ysize_blocks,
                gpu_xsize_blocks,
                xsize_tiles,
            );
            let made = (run.device.kernels)(
                Kernel::CflCollect,
                cube_each(num_tiles, 64),
                seq![
                    word(run.held(s, dct_y), in_floats as int),
                    word(run.held(s, dct_x), in_floats as int),
                    word(run.held(s, dct_b), in_floats as int),
                    word(run.held(s, inv_qm_x), 64),
                    word(run.held(s, inv_qm_b), 64),
                    word(run.held(s, m_yx), out_floats as int),
                    word(run.held(s, s_x), out_floats as int),
                    word(run.held(s, m_yb), out_floats as int),
                    word(run.held(s, s_b), out_floats as int),
                ],
                seq![
                    Scalar::U32(xsize_blocks),
                    Scalar::U32(ysize_blocks),
                    Scalar::U32(gpu_xsize_blocks),
                    Scalar::U32(xsize_tiles),
                ],
            );
            &&& run.held(s.launch(l), m_yx) == made[5]
            &&& run.held(s.launch(l), s_x) == made[6]
            &&& run.held(s.launch(l), m_yb) == made[7]
            &&& run.held(s.launch(l), s_b) == made[8]
        }),
{
    let l = cfl_collect_launch(
        dct_y,
        dct_x,
        dct_b,
        inv_qm_x,
        inv_qm_b,
        m_yx,
        s_x,
        m_yb,
        s_b,
        num_tiles,
        in_floats,
        out_floats,
        xsize_blocks,
        ysize_blocks,
        gpu_xsize_blocks,
        xsize_tiles,
    );
    assert(operands(run.memory(s), l.arrays) =~= seq![
        word(run.held(s, dct_y), in_floats as int),
        word(run.held(s, dct_x), in_floats as int),
        word(run.held(s, dct_b), in_floats as int),
        word(run.held(s, inv_qm_x), 64),
        word(run.held(s, inv_qm_b), 64),
        word(run.held(s, m_yx), out_floats as int),
        word(run.held(s, s_x), out_floats as int),
        word(run.held(s, m_yb), out_floats as int),
        word(run.held(s, s_b), out_floats as int),
    ]);
    assert(l.scalars =~= seq![
        Scalar::U32(xsize_blocks),
        Scalar::U32(ysize_blocks),
        Scalar::U32(gpu_xsize_blocks),
        Scalar::U32(xsize_tiles),
    ]);
    lemma_written(run, s, l, 5);
    lemma_written(run, s, l, 6);
    lemma_written(run, s, l, 7);
    lemma_written(run, s, l, 8);
}

/// The quantized coefficients of three channels, and how many of them are not
/// zero, are made of the planes of the channels at once.
pub proof fn law_channels_are_coded_together(
    run: Run,
    s: Recording,
    plane_x: Handle,
    plane_y: Handle,
    plane_b: Handle,
    weights_x: Handle,
    weights_y: Handle,
    weights_b: Handle,
    qac_qm_x: Handle,
    qac_qm_y: Handle,
    qac_qm_b: Handle,
    x_factor_per_block: Handle,
    b_factor_per_block: Handle,
    thresholds_x: Handle,
    thresholds_y: Handle,
    thresholds_b: Handle,
    quant_ac_x: Handle,
    quant_ac_y: Handle,
    quant_ac_b: Handle,
    nzeros_x: Handle,
    nzeros_y: Handle,
    nzeros_b: Handle,
    plane_n: u64,
    n_blocks: u32,
    plane_stride: u32,
    xsize_blocks: u32,
)
    requires
        quant_ac_x.id < run.memory(s).len(),
        quant_ac_y.id < run.memory(s).len(),
        quant_ac_b.id < run.memory(s).len(),
        nzeros_x.id < run.memory(s).len(),
        nzeros_y.id < run.memory(s).len(),
        nzeros_b.id < run.memory(s).len(),
        quant_ac_x.id != quant_ac_y.id,
        quant_ac_x.id != quant_ac_b.id,
        quant_ac_x.id != nzeros_x.id,
        quant_ac_x.id != nzeros_y.id,
        quant_ac_x.id != nzeros_b.id,
        quant_ac_y.id != quant_ac_b.id,
        quant_ac_y.id != nzeros_x.id,
        quant_ac_y.id != nzeros_y.id,
        quant_ac_y.id != nzeros_b.id,
        quant_ac_b.id != nzeros_x.id,
        quant_ac_b.id != nzeros_y.id,
        quant_ac_b.id != nzeros_b.id,
        nzeros_x.id != nzeros_y.id,
        nzeros_x.id != nzeros_b.id,
        nzeros_y.id != nzeros_b.id,
    ensures
        ({
            let l = fused_dct8_3ch_launch(
                plane_x,
                plane_y,
                plane_b,
                weights_x,
                weights_y,
                weights_b,
                qac_qm_x,
                qac_qm_y,
                qac_qm_b,
                x_factor_per_block,
                b_factor_per_block,
                thresholds_x,
                thresholds_y,
                thresholds_b,
                quant_ac_x,
                quant_ac_y,
                quant_ac_b,
                nzeros_x,
                nzeros_y,
                nzeros_b,
                plane_n,
                n_blocks,
                plane_stride,
                xsize_blocks,
            );
            let made = (run.device.kernels)(
                Kernel::FusedDct83ch,
                spread(n_blocks as int, 64),
                seq![
                    word(run.held(s, plane_x), plane_n as int),
                    word(run.held(s, plane_y), plane_n as int),
                    word(run.held(s, plane_b), plane_n as int),
                    word(run.held(s, weights_x), 64),
                    word(run.held(s, weights_y), 64),
                    word(run.held(s, weights_b), 64),
                    word(run.held(s, qac_qm_x), n_blocks as int),
                    word(run.held(s, qac_qm_y), n_blocks as int),
                    word(run.held(s, qac_qm_b), n_blocks as int),
                    word(run.held(s, x_factor_per_block), n_blocks as int),
                    word(run.held(s, b_factor_per_block), n_blocks as int),
                    word(run.held(s, thresholds_x), 4),
                    word(run.held(s, thresholds_y), 4),
                    word(run.held(s, thresholds_b), 4),
                    word(run.held(s, quant_ac_x), n_blocks * 64),
                    word(run.held(s, quant_ac_y), n_blocks * 64),
                    word(run.held(s, quant_ac_b), n_blocks * 64),
                    word(run.held(s, nzeros_x), n_blocks as int),
                    word(run.held(s, nzeros_y), n_blocks as int),
                    word(run.held(s, nzeros_b), n_blocks as int),
                ],
                seq![
                    Scalar::U32(plane_stride),
                    Scalar::U32(xsize_blocks),
                ],
            );
            &&& run.held(s.launch(l), quant_ac_x) == made[14]
            &&& run.held(s.launch(l), quant_ac_y) == made[15]
            &&& run.held(s.launch(l), quant_ac_b) == made[16]
            &&& run.held(s.launch(l), nzeros_x) == made[17]
            &&& run.held(s.launch(l), nzeros_y) == made[18]
            &&& run.held(s.launch(l), nzeros_b) == made[19]
        }),
{
    let l = fused_dct8_3ch_launch(
        plane_x,
        plane_y,
        plane_b,
        weights_x,
        weights_y,
        weights_b,
        qac_qm_x,
        qac_qm_y,
        qac_qm_b,
        x_factor_per_block,
        b_factor_per_block,
        thresholds_x,
        thresholds_y,
        thresholds_b,
        quant_ac_x,
        quant_ac_y,
        quant_ac_b,
        nzeros_x,
        nzeros_y,
        nzeros_b,
        plane_n,
        n_blocks,
        plane_stride,
        xsize_blocks,
    );
    assert(operands(run.memory(s), l.arrays) =~= seq![
        word(run.held(s, plane_x), plane_n as int),
        word(run.held(s, plane_y), plane_n as int),
        word(run.held(s, plane_b), plane_n as int),
        word(run.held(s, weights_x), 64),
        word(run.held(s, weights_y), 64),
        word(run.held(s, weights_b), 64),
        word(run.held(s, qac_qm_x), n_blocks as int),
        word(run.held(s, qac_qm_y), n_blocks as int),
        word(run.held(s, qac_qm_b), n_blocks as int),
        word(run.held(s, x_factor_per_block), n_blocks as int),
        word(run.held(s, b_factor_per_block), n_blocks as int),
        word(run.held(s, thresholds_x), 4),
        word(run.held(s, thresholds_y), 4),
        word(run.held(s, thresholds_b), 4),
        word(run.held(s, quant_ac_x), n_blocks * 64),
        word(run.held(s, quant_ac_y), n_blocks * 64),
        word(run.held(s, quant_ac_b), n_blocks * 64),
        word(run.held(s, nzeros_x), n_blocks as int),
        word(run.held(s, nzeros_y), n_blocks as int),
        word(run.held(s, nzeros_b), n_blocks as int),
    ]);
    assert(l.scalars =~= seq![
        Scalar::U32(plane_stride),
        Scalar::U32(xsize_blocks),
    ]);
    lemma_written(run, s, l, 14);
    lemma_written(run, s, l, 15);
    lemma_written(run, s, l, 16);
    lemma_written(run, s, l, 17);
    lemma_written(run, s, l, 18);
    lemma_written(run, s, l, 19);
}

} // verus!

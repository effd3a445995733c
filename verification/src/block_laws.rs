//! What the operations on blocks leave in the buffers that they fill.

use crate::cost_grid::Transform;
use crate::dataflow::{lemma_made, lemma_read, stored_numbers, word, Run};
use crate::device::{cube_each, spread, CommandSpec, Grid, Handle, Kernel, Recording, Scalar};
use crate::execution::{bytes_of_words, operands};
use crate::float::Float32;
use crate::launch::dequant::dequant_dct8_launch;
use crate::launch::dequant_simple::{
    dequant_strategy_broadcast_w_dct8_launch, dequant_strategy_broadcast_w_launch,
};
use crate::launch::entropy::entropy_coeffs_pixel_broadcast_w_launch;
use crate::launch::fused_dct_quant::{
    dct8_quantize_fused_wide_launch, dequant_idct8_fused_y_wide_launch,
};
use crate::launch::histogram::histogram_count_pow2_launch;
use crate::launch::indexed_gather::indexed_gather_launch;
use crate::launch::indexed_scatter::indexed_scatter_launch;
use crate::launch::pixel_loss::pixel_loss_launch;
use crate::launch::quantize::{quantize_dct8_launch, quantize_large_broadcast_w_launch};
use crate::launch::set_dc::set_dc_from_grid_indexed_launch;
use crate::launch::set_llf::{
    set_llf_dct16x16_indexed_launch, set_llf_dct16x32_indexed_launch,
    set_llf_dct16x8_or_8x16_indexed_launch, set_llf_dct32x16_indexed_launch,
    set_llf_dct32x32_indexed_launch, set_llf_dct32x64_indexed_launch,
    set_llf_dct64x32_indexed_launch, set_llf_dct64x64_indexed_launch,
};
use crate::launch_laws::{double, lemma_written};
use crate::persistent::{
    bits_of, channel_bias_of, dct8_quantize_fused_persistent_steps, dequant_dct8_persistent_steps,
    dequant_idct8_fused_y_persistent_steps, dequant_strategy_dct8_persistent_steps,
    dequant_strategy_persistent_steps, entropy_coeffs_pixel_blocks_broadcast_w_persistent_steps,
    flat_coords, histogram_steps, indexed_gather_blocks_persistent_steps,
    indexed_scatter_blocks_persistent_steps, pixel_loss_blocks_persistent_steps,
    quantize_dct8_persistent_steps, quantize_large_blocks_broadcast_w_persistent_steps,
    set_dc_from_grid_indexed_persistent_steps, set_llf_dct16x16_indexed_persistent_steps,
    set_llf_dct16x32_indexed_persistent_steps, set_llf_dct16x8_or_8x16_indexed_persistent_steps,
    set_llf_dct32x16_indexed_persistent_steps, set_llf_dct32x32_indexed_persistent_steps,
    set_llf_dct32x64_indexed_persistent_steps, set_llf_dct64x32_indexed_persistent_steps,
    set_llf_dct64x64_indexed_persistent_steps, GpuBlocks, GpuI32Blocks, GpuPlane,
};
use vstd::prelude::*;

verus! {

/// Blocks of coefficients are quantized with weights of their own, a scale for
/// each and four thresholds.
pub proof fn law_blocks_are_quantized(
    run: Run,
    s: Recording,
    coeffs: GpuBlocks,
    weights: GpuBlocks,
    qac_qm: Seq<Float32>,
    thresholds: Seq<Float32>,
)
    requires
        run.ready(s, 3),
        coeffs.handle.id < s.buffers.len(),
        weights.handle.id < s.buffers.len(),
    ensures
        ({
            let (s1, r) = quantize_dct8_persistent_steps(
                s,
                coeffs,
                weights,
                qac_qm,
                thresholds,
            );
            let made = (run.device.kernels)(
                Kernel::QuantizeDct8,
                cube_each(coeffs.num_blocks, 1),
                seq![
                    word(run.held(s, coeffs.handle), coeffs.num_blocks * 64),
                    word(run.held(s, weights.handle), coeffs.num_blocks * 64),
                    word(stored_numbers(qac_qm), coeffs.num_blocks as int),
                    word(stored_numbers(thresholds), 4),
                    run.device.blank(coeffs.num_blocks * 64),
                ],
                seq![
                ],
            );
            &&& r.num_blocks == coeffs.num_blocks
            &&& r.coeffs_per_block == 64
            &&& run.held(s1, r.handle) == made[4]
        }),
{
    reveal(quantize_dct8_persistent_steps);
    let h_qac = s.next();
    let t1 = s.create(bits_of(qac_qm));
    lemma_made(run, s, t1, CommandSpec::Create { words: bits_of(qac_qm) });
    let h_thr = t1.next();
    let t2 = t1.create(bits_of(thresholds));
    lemma_made(run, t1, t2, CommandSpec::Create { words: bits_of(thresholds) });
    let h_out = t2.next();
    let t3 = t2.empty(coeffs.num_blocks * 64 * 4);
    lemma_made(run, t2, t3, CommandSpec::Empty { bytes: (coeffs.num_blocks * 64 * 4) as u64 });
    let l = quantize_dct8_launch(
        coeffs.handle,
        weights.handle,
        h_qac,
        h_thr,
        h_out,
        coeffs.num_blocks,
    );
    assert(operands(run.memory(t3), l.arrays) =~= seq![
        word(run.held(s, coeffs.handle), coeffs.num_blocks * 64),
        word(run.held(s, weights.handle), coeffs.num_blocks * 64),
        word(stored_numbers(qac_qm), coeffs.num_blocks as int),
        word(stored_numbers(thresholds), 4),
        run.device.blank(coeffs.num_blocks * 64),
    ]);
    assert(l.scalars =~= seq![
    ]);
    lemma_written(run, t3, l, 4);
}

/// Blocks of pixels are transformed and quantized at once.
pub proof fn law_pixels_are_quantized(
    run: Run,
    s: Recording,
    pixels: GpuBlocks,
    weights: GpuBlocks,
    qac_qm: Seq<Float32>,
    thresholds: Seq<Float32>,
)
    requires
        run.ready(s, 3),
        pixels.handle.id < s.buffers.len(),
        weights.handle.id < s.buffers.len(),
    ensures
        ({
            let (s1, r) = dct8_quantize_fused_persistent_steps(
                s,
                pixels,
                weights,
                qac_qm,
                thresholds,
            );
            let made = (run.device.kernels)(
                Kernel::Dct8QuantizeFusedWide,
                spread(pixels.num_blocks as int, 64),
                seq![
                    word(run.held(s, pixels.handle), pixels.num_blocks * 64),
                    word(run.held(s, weights.handle), pixels.num_blocks * 64),
                    word(stored_numbers(qac_qm), pixels.num_blocks as int),
                    word(stored_numbers(thresholds), 4),
                    run.device.blank(pixels.num_blocks * 64),
                ],
                seq![
                ],
            );
            &&& r.num_blocks == pixels.num_blocks
            &&& r.coeffs_per_block == 64
            &&& run.held(s1, r.handle) == made[4]
        }),
{
    reveal(dct8_quantize_fused_persistent_steps);
    let h_qac = s.next();
    let t1 = s.create(bits_of(qac_qm));
    lemma_made(run, s, t1, CommandSpec::Create { words: bits_of(qac_qm) });
    let h_thr = t1.next();
    let t2 = t1.create(bits_of(thresholds));
    lemma_made(run, t1, t2, CommandSpec::Create { words: bits_of(thresholds) });
    let h_out = t2.next();
    let t3 = t2.empty(pixels.num_blocks * 64 * 4);
    lemma_made(run, t2, t3, CommandSpec::Empty { bytes: (pixels.num_blocks * 64 * 4) as u64 });
    let l = dct8_quantize_fused_wide_launch(
        pixels.handle,
        weights.handle,
        h_qac,
        h_thr,
        h_out,
        pixels.num_blocks,
    );
    assert(operands(run.memory(t3), l.arrays) =~= seq![
        word(run.held(s, pixels.handle), pixels.num_blocks * 64),
        word(run.held(s, weights.handle), pixels.num_blocks * 64),
        word(stored_numbers(qac_qm), pixels.num_blocks as int),
        word(stored_numbers(thresholds), 4),
        run.device.blank(pixels.num_blocks * 64),
    ]);
    assert(l.scalars =~= seq![
    ]);
    lemma_written(run, t3, l, 4);
}

/// Quantized blocks of luminance are multiplied with their weights and scales and
/// transformed back at once.
pub proof fn law_luminance_is_brought_back(
    run: Run,
    s: Recording,
    quant: GpuI32Blocks,
    weights: GpuBlocks,
    qac_qm: Seq<Float32>,
)
    requires
        run.ready(s, 2),
        quant.handle.id < s.buffers.len(),
        weights.handle.id < s.buffers.len(),
    ensures
        ({
            let (s1, r) = dequant_idct8_fused_y_persistent_steps(
                s,
                quant,
                weights,
                qac_qm,
            );
            let made = (run.device.kernels)(
                Kernel::DequantIdct8FusedYWide,
                spread(quant.num_blocks as int, 64),
                seq![
                    word(run.held(s, quant.handle), quant.num_blocks * 64),
                    word(run.held(s, weights.handle), quant.num_blocks * 64),
                    word(stored_numbers(qac_qm), quant.num_blocks as int),
                    run.device.blank(quant.num_blocks * 64),
                ],
                seq![
                ],
            );
            &&& r.num_blocks == quant.num_blocks
            &&& r.coeffs_per_block == 64
            &&& run.held(s1, r.handle) == made[3]
        }),
{
    reveal(dequant_idct8_fused_y_persistent_steps);
    let h_qac = s.next();
    let t1 = s.create(bits_of(qac_qm));
    lemma_made(run, s, t1, CommandSpec::Create { words: bits_of(qac_qm) });
    let h_out = t1.next();
    let t2 = t1.empty(quant.num_blocks * 64 * 4);
    lemma_made(run, t1, t2, CommandSpec::Empty { bytes: (quant.num_blocks * 64 * 4) as u64 });
    let l = dequant_idct8_fused_y_wide_launch(
        quant.handle,
        weights.handle,
        h_qac,
        h_out,
        quant.num_blocks,
    );
    assert(operands(run.memory(t2), l.arrays) =~= seq![
        word(run.held(s, quant.handle), quant.num_blocks * 64),
        word(run.held(s, weights.handle), quant.num_blocks * 64),
        word(stored_numbers(qac_qm), quant.num_blocks as int),
        run.device.blank(quant.num_blocks * 64),
    ]);
    assert(l.scalars =~= seq![
    ]);
    lemma_written(run, t2, l, 3);
}

/// Blocks of any size are quantized with one matrix for all, a scale for each and
/// four thresholds.
pub proof fn law_large_blocks_are_quantized(
    run: Run,
    s: Recording,
    coeffs: GpuBlocks,
    weights_template: Seq<Float32>,
    qac_qm: Seq<Float32>,
    thresholds: Seq<Float32>,
    grid_width: u32,
    grid_height: u32,
    llf_x: u32,
    llf_y: u32,
)
    requires
        run.ready(s, 4),
        coeffs.handle.id < s.buffers.len(),
        coeffs.coeffs_per_block == grid_width * grid_height,
    ensures
        ({
            let (s1, r) = quantize_large_blocks_broadcast_w_persistent_steps(
                s,
                coeffs,
                weights_template,
                qac_qm,
                thresholds,
                grid_width,
                grid_height,
                llf_x,
                llf_y,
            );
            let made = (run.device.kernels)(
                Kernel::QuantizeLargeBroadcastW,
                Grid::Items { count: coeffs.num_blocks },
                seq![
                    word(
                        run.held(s, coeffs.handle),
                        coeffs.num_blocks * (grid_width * grid_height),
                    ),
                    word(stored_numbers(weights_template), grid_width * grid_height),
                    word(stored_numbers(qac_qm), coeffs.num_blocks as int),
                    word(stored_numbers(thresholds), 4),
                    run.device.blank(coeffs.num_blocks * (grid_width * grid_height)),
                ],
                seq![
                    Scalar::U32(grid_width),
                    Scalar::U32(grid_height),
                    Scalar::U32(llf_x),
                    Scalar::U32(llf_y),
                ],
            );
            &&& r.num_blocks == coeffs.num_blocks
            &&& r.coeffs_per_block == coeffs.coeffs_per_block
            &&& run.held(s1, r.handle) == made[4]
        }),
{
    reveal(quantize_large_blocks_broadcast_w_persistent_steps);
    let h_w = s.next();
    let t1 = s.create(bits_of(weights_template));
    lemma_made(run, s, t1, CommandSpec::Create { words: bits_of(weights_template) });
    let h_q = t1.next();
    let t2 = t1.create(bits_of(qac_qm));
    lemma_made(run, t1, t2, CommandSpec::Create { words: bits_of(qac_qm) });
    let h_t = t2.next();
    let t3 = t2.create(bits_of(thresholds));
    lemma_made(run, t2, t3, CommandSpec::Create { words: bits_of(thresholds) });
    let h_o = t3.next();
    let t4 = t3.empty(coeffs.num_blocks * coeffs.coeffs_per_block * 4);
    let bytes = (coeffs.num_blocks * coeffs.coeffs_per_block * 4) as u64;
    lemma_made(run, t3, t4, CommandSpec::Empty { bytes });
    let l = quantize_large_broadcast_w_launch(
        coeffs.handle,
        h_w,
        h_q,
        h_t,
        h_o,
        coeffs.num_blocks,
        grid_width,
        grid_height,
        llf_x,
        llf_y,
    );
    assert(operands(run.memory(t4), l.arrays) =~= seq![
        word(run.held(s, coeffs.handle), coeffs.num_blocks * (grid_width * grid_height)),
        word(stored_numbers(weights_template), grid_width * grid_height),
        word(stored_numbers(qac_qm), coeffs.num_blocks as int),
        word(stored_numbers(thresholds), 4),
        run.device.blank(coeffs.num_blocks * (grid_width * grid_height)),
    ]);
    assert(l.scalars =~= seq![
        Scalar::U32(grid_width),
        Scalar::U32(grid_height),
        Scalar::U32(llf_x),
        Scalar::U32(llf_y),
    ]);
    lemma_written(run, t4, l, 4);
}

/// Quantized blocks of a transform are multiplied with one matrix for all and a
/// scale for each.
pub proof fn law_blocks_of_a_transform_are_brought_back(
    run: Run,
    s: Recording,
    quant: GpuI32Blocks,
    weights_template: Seq<Float32>,
    qac_per_block: Seq<Float32>,
)
    requires
        run.ready(s, 3),
        quant.handle.id < s.buffers.len(),
    ensures
        ({
            let (s1, r) = dequant_strategy_persistent_steps(
                s,
                quant,
                weights_template,
                qac_per_block,
            );
            let made = (run.device.kernels)(
                Kernel::DequantStrategyBroadcastW,
                cube_each(quant.num_blocks, 1),
                seq![
                    word(run.held(s, quant.handle), quant.num_blocks * quant.coeffs_per_block),
                    word(stored_numbers(weights_template), quant.coeffs_per_block as int),
                    word(stored_numbers(qac_per_block), quant.num_blocks as int),
                    run.device.blank(quant.num_blocks * quant.coeffs_per_block),
                ],
                seq![
                    Scalar::U32(quant.coeffs_per_block),
                ],
            );
            &&& r.num_blocks == quant.num_blocks
            &&& r.coeffs_per_block == quant.coeffs_per_block
            &&& run.held(s1, r.handle) == made[3]
        }),
{
    reveal(dequant_strategy_persistent_steps);
    let h_w = s.next();
    let t1 = s.create(bits_of(weights_template));
    lemma_made(run, s, t1, CommandSpec::Create { words: bits_of(weights_template) });
    let h_q = t1.next();
    let t2 = t1.create(bits_of(qac_per_block));
    lemma_made(run, t1, t2, CommandSpec::Create { words: bits_of(qac_per_block) });
    let h_o = t2.next();
    let t3 = t2.empty(quant.num_blocks * quant.coeffs_per_block * 4);
    let bytes = (quant.num_blocks * quant.coeffs_per_block * 4) as u64;
    lemma_made(run, t2, t3, CommandSpec::Empty { bytes });
    let l = dequant_strategy_broadcast_w_launch(
        quant.handle,
        h_w,
        h_q,
        h_o,
        quant.num_blocks,
        quant.coeffs_per_block,
    );
    assert(operands(run.memory(t3), l.arrays) =~= seq![
        word(run.held(s, quant.handle), quant.num_blocks * quant.coeffs_per_block),
        word(stored_numbers(weights_template), quant.coeffs_per_block as int),
        word(stored_numbers(qac_per_block), quant.num_blocks as int),
        run.device.blank(quant.num_blocks * quant.coeffs_per_block),
    ]);
    assert(l.scalars =~= seq![
        Scalar::U32(quant.coeffs_per_block),
    ]);
    lemma_written(run, t3, l, 3);
}

/// Quantized blocks of DCT8 are multiplied likewise, small ones by the bias of
/// their channel.
pub proof fn law_blocks_of_a_channel_are_brought_back(
    run: Run,
    s: Recording,
    quant: GpuI32Blocks,
    weights_template: Seq<Float32>,
    qac_per_block: Seq<Float32>,
    channel: usize,
)
    requires
        run.ready(s, 3),
        quant.handle.id < s.buffers.len(),
    ensures
        ({
            let (s1, r) = dequant_strategy_dct8_persistent_steps(
                s,
                quant,
                weights_template,
                qac_per_block,
                channel,
            );
            let made = (run.device.kernels)(
                Kernel::DequantStrategyBroadcastWDct8,
                cube_each(quant.num_blocks, 1),
                seq![
                    word(run.held(s, quant.handle), quant.num_blocks * quant.coeffs_per_block),
                    word(stored_numbers(weights_template), quant.coeffs_per_block as int),
                    word(stored_numbers(qac_per_block), quant.num_blocks as int),
                    run.device.blank(quant.num_blocks * quant.coeffs_per_block),
                ],
                seq![
                    Scalar::U32(quant.coeffs_per_block),
                    Scalar::F32(channel_bias_of(channel as int)),
                ],
            );
            &&& r.num_blocks == quant.num_blocks
            &&& r.coeffs_per_block == quant.coeffs_per_block
            &&& run.held(s1, r.handle) == made[3]
        }),
{
    reveal(dequant_strategy_dct8_persistent_steps);
    let h_w = s.next();
    let t1 = s.create(bits_of(weights_template));
    lemma_made(run, s, t1, CommandSpec::Create { words: bits_of(weights_template) });
    let h_q = t1.next();
    let t2 = t1.create(bits_of(qac_per_block));
    lemma_made(run, t1, t2, CommandSpec::Create { words: bits_of(qac_per_block) });
    let h_o = t2.next();
    let t3 = t2.empty(quant.num_blocks * quant.coeffs_per_block * 4);
    let bytes = (quant.num_blocks * quant.coeffs_per_block * 4) as u64;
    lemma_made(run, t2, t3, CommandSpec::Empty { bytes });
    let l = dequant_strategy_broadcast_w_dct8_launch(
        quant.handle,
        h_w,
        h_q,
        h_o,
        quant.num_blocks,
        quant.coeffs_per_block,
        channel_bias_of(channel as int),
    );
    assert(operands(run.memory(t3), l.arrays) =~= seq![
        word(run.held(s, quant.handle), quant.num_blocks * quant.coeffs_per_block),
        word(stored_numbers(weights_template), quant.coeffs_per_block as int),
        word(stored_numbers(qac_per_block), quant.num_blocks as int),
        run.device.blank(quant.num_blocks * quant.coeffs_per_block),
    ]);
    assert(l.scalars =~= seq![
        Scalar::U32(quant.coeffs_per_block),
        Scalar::F32(channel_bias_of(channel as int)),
    ]);
    lemma_written(run, t3, l, 3);
}

/// Quantized blocks of three channels are multiplied with weights of their own and
/// the scales of their channels; what of Y is added to X and to B comes with each
/// block.
pub proof fn law_channels_are_brought_back(
    run: Run,
    s: Recording,
    quant_x: GpuI32Blocks,
    quant_y: GpuI32Blocks,
    quant_b: GpuI32Blocks,
    weights_x: GpuBlocks,
    weights_y: GpuBlocks,
    weights_b: GpuBlocks,
    qac_qm_x: Seq<Float32>,
    qac_qm_y: Seq<Float32>,
    qac_qm_b: Seq<Float32>,
    x_factor: Seq<Float32>,
    b_factor: Seq<Float32>,
)
    requires
        run.ready(s, 8),
        quant_x.handle.id < s.buffers.len(),
        quant_y.handle.id < s.buffers.len(),
        quant_b.handle.id < s.buffers.len(),
        weights_x.handle.id < s.buffers.len(),
        weights_y.handle.id < s.buffers.len(),
        weights_b.handle.id < s.buffers.len(),
    ensures
        ({
            let (s1, r) = dequant_dct8_persistent_steps(
                s,
                quant_x,
                quant_y,
                quant_b,
                weights_x,
                weights_y,
                weights_b,
                qac_qm_x,
                qac_qm_y,
                qac_qm_b,
                x_factor,
                b_factor,
            );
            let made = (run.device.kernels)(
                Kernel::DequantDct8,
                cube_each(quant_x.num_blocks, 1),
                seq![
                    word(run.held(s, quant_x.handle), quant_x.num_blocks * 64),
                    word(run.held(s, quant_y.handle), quant_x.num_blocks * 64),
                    word(run.held(s, quant_b.handle), quant_x.num_blocks * 64),
                    word(run.held(s, weights_x.handle), quant_x.num_blocks * 64),
                    word(run.held(s, weights_y.handle), quant_x.num_blocks * 64),
                    word(run.held(s, weights_b.handle), quant_x.num_blocks * 64),
                    word(stored_numbers(qac_qm_x), quant_x.num_blocks as int),
                    word(stored_numbers(qac_qm_y), quant_x.num_blocks as int),
                    word(stored_numbers(qac_qm_b), quant_x.num_blocks as int),
                    word(stored_numbers(x_factor), quant_x.num_blocks as int),
                    word(stored_numbers(b_factor), quant_x.num_blocks as int),
                    run.device.blank(quant_x.num_blocks * 64),
                    run.device.blank(quant_x.num_blocks * 64),
                    run.device.blank(quant_x.num_blocks * 64),
                ],
                seq![
                ],
            );
            &&& r.0.num_blocks == quant_x.num_blocks
            &&& run.held(s1, r.0.handle) == made[11]
            &&& r.1.num_blocks == quant_x.num_blocks
            &&& run.held(s1, r.1.handle) == made[12]
            &&& r.2.num_blocks == quant_x.num_blocks
            &&& run.held(s1, r.2.handle) == made[13]
        }),
{
    reveal(dequant_dct8_persistent_steps);
    let h_qmx = s.next();
    let t1 = s.create(bits_of(qac_qm_x));
    lemma_made(run, s, t1, CommandSpec::Create { words: bits_of(qac_qm_x) });
    let h_qmy = t1.next();
    let t2 = t1.create(bits_of(qac_qm_y));
    lemma_made(run, t1, t2, CommandSpec::Create { words: bits_of(qac_qm_y) });
    let h_qmb = t2.next();
    let t3 = t2.create(bits_of(qac_qm_b));
    lemma_made(run, t2, t3, CommandSpec::Create { words: bits_of(qac_qm_b) });
    let h_xf = t3.next();
    let t4 = t3.create(bits_of(x_factor));
    lemma_made(run, t3, t4, CommandSpec::Create { words: bits_of(x_factor) });
    let h_bf = t4.next();
    let t5 = t4.create(bits_of(b_factor));
    lemma_made(run, t4, t5, CommandSpec::Create { words: bits_of(b_factor) });
    let h_ox = t5.next();
    let t6 = t5.empty(quant_x.num_blocks * 64 * 4);
    lemma_made(run, t5, t6, CommandSpec::Empty { bytes: (quant_x.num_blocks * 64 * 4) as u64 });
    let h_oy = t6.next();
    let t7 = t6.empty(quant_x.num_blocks * 64 * 4);
    lemma_made(run, t6, t7, CommandSpec::Empty { bytes: (quant_x.num_blocks * 64 * 4) as u64 });
    let h_ob = t7.next();
    let t8 = t7.empty(quant_x.num_blocks * 64 * 4);
    lemma_made(run, t7, t8, CommandSpec::Empty { bytes: (quant_x.num_blocks * 64 * 4) as u64 });
    let l = dequant_dct8_launch(
        quant_x.handle,
        quant_y.handle,
        quant_b.handle,
        weights_x.handle,
        weights_y.handle,
        weights_b.handle,
        h_qmx,
        h_qmy,
        h_qmb,
        h_xf,
        h_bf,
        h_ox,
        h_oy,
        h_ob,
        quant_x.num_blocks,
    );
    assert(operands(run.memory(t8), l.arrays) =~= seq![
        word(run.held(s, quant_x.handle), quant_x.num_blocks * 64),
        word(run.held(s, quant_y.handle), quant_x.num_blocks * 64),
        word(run.held(s, quant_b.handle), quant_x.num_blocks * 64),
        word(run.held(s, weights_x.handle), quant_x.num_blocks * 64),
        word(run.held(s, weights_y.handle), quant_x.num_blocks * 64),
        word(run.held(s, weights_b.handle), quant_x.num_blocks * 64),
        word(stored_numbers(qac_qm_x), quant_x.num_blocks as int),
        word(stored_numbers(qac_qm_y), quant_x.num_blocks as int),
        word(stored_numbers(qac_qm_b), quant_x.num_blocks as int),
        word(stored_numbers(x_factor), quant_x.num_blocks as int),
        word(stored_numbers(b_factor), quant_x.num_blocks as int),
        run.device.blank(quant_x.num_blocks * 64),
        run.device.blank(quant_x.num_blocks * 64),
        run.device.blank(quant_x.num_blocks * 64),
    ]);
    assert(l.scalars =~= seq![
    ]);
    lemma_written(run, t8, l, 11);
    lemma_written(run, t8, l, 12);
    lemma_written(run, t8, l, 13);
}

/// The entropy of blocks of a channel is estimated from the coefficients of the
/// channel and of luminance, with one matrix for all blocks and its inverse; what
/// is lost of each coefficient is left beside it.
pub proof fn law_entropy_is_of_the_channel_and_luminance(
    run: Run,
    s: Recording,
    block_c: GpuBlocks,
    block_y: GpuBlocks,
    weights_template: Seq<Float32>,
    inv_weights_template: Seq<Float32>,
    cmap_factor: Float32,
    quant: Float32,
    k_cost_delta: Float32,
)
    requires
        run.ready(s, 4),
        block_c.handle.id < s.buffers.len(),
        block_y.handle.id < s.buffers.len(),
    ensures
        ({
            let (s1, r) = entropy_coeffs_pixel_blocks_broadcast_w_persistent_steps(
                s,
                block_c,
                block_y,
                weights_template,
                inv_weights_template,
                cmap_factor,
                quant,
                k_cost_delta,
            );
            let made = (run.device.kernels)(
                Kernel::EntropyCoeffsPixelBroadcastW,
                cube_each(block_c.num_blocks, 1),
                seq![
                    word(
                        run.held(s, block_c.handle),
                        block_c.num_blocks * block_c.coeffs_per_block,
                    ),
                    word(
                        run.held(s, block_y.handle),
                        block_c.num_blocks * block_c.coeffs_per_block,
                    ),
                    word(stored_numbers(weights_template), block_c.coeffs_per_block as int),
                    word(stored_numbers(inv_weights_template), block_c.coeffs_per_block as int),
                    run.device.blank(block_c.num_blocks * block_c.coeffs_per_block),
                    run.device.blank(block_c.num_blocks * 4),
                ],
                seq![
                    Scalar::U32(block_c.coeffs_per_block),
                    Scalar::F32(cmap_factor),
                    Scalar::F32(quant),
                    Scalar::F32(k_cost_delta),
                ],
            );
            &&& r.0.num_blocks == block_c.num_blocks
            &&& r.0.coeffs_per_block == 4
            &&& run.held(s1, r.0.handle) == made[5]
            &&& r.1.num_blocks == block_c.num_blocks
            &&& r.1.coeffs_per_block == block_c.coeffs_per_block
            &&& run.held(s1, r.1.handle) == made[4]
        }),
{
    reveal(entropy_coeffs_pixel_blocks_broadcast_w_persistent_steps);
    let h_w = s.next();
    let t1 = s.create(bits_of(weights_template));
    lemma_made(run, s, t1, CommandSpec::Create { words: bits_of(weights_template) });
    let h_iw = t1.next();
    let t2 = t1.create(bits_of(inv_weights_template));
    lemma_made(run, t1, t2, CommandSpec::Create { words: bits_of(inv_weights_template) });
    let h_err = t2.next();
    let t3 = t2.empty(block_c.num_blocks * block_c.coeffs_per_block * 4);
    let bytes = (block_c.num_blocks * block_c.coeffs_per_block * 4) as u64;
    lemma_made(run, t2, t3, CommandSpec::Empty { bytes });
    let h_out = t3.next();
    let t4 = t3.empty(block_c.num_blocks * 4 * 4);
    lemma_made(run, t3, t4, CommandSpec::Empty { bytes: (block_c.num_blocks * 4 * 4) as u64 });
    let l = entropy_coeffs_pixel_broadcast_w_launch(
        block_c.handle,
        block_y.handle,
        h_w,
        h_iw,
        h_err,
        h_out,
        block_c.num_blocks,
        block_c.coeffs_per_block,
        cmap_factor,
        quant,
        k_cost_delta,
    );
    assert(operands(run.memory(t4), l.arrays) =~= seq![
        word(run.held(s, block_c.handle), block_c.num_blocks * block_c.coeffs_per_block),
        word(run.held(s, block_y.handle), block_c.num_blocks * block_c.coeffs_per_block),
        word(stored_numbers(weights_template), block_c.coeffs_per_block as int),
        word(stored_numbers(inv_weights_template), block_c.coeffs_per_block as int),
        run.device.blank(block_c.num_blocks * block_c.coeffs_per_block),
        run.device.blank(block_c.num_blocks * 4),
    ]);
    assert(l.scalars =~= seq![
        Scalar::U32(block_c.coeffs_per_block),
        Scalar::F32(cmap_factor),
        Scalar::F32(quant),
        Scalar::F32(k_cost_delta),
    ]);
    lemma_written(run, t4, l, 5);
    lemma_written(run, t4, l, 4);
}

/// Block positions go to the device in turn, each as its column and its row.
pub proof fn law_positions_are_columns_and_rows(coords: Seq<(u32, u32)>, i: int)
    requires
        0 <= i < coords.len(),
    ensures
        flat_coords(coords).len() == 2 * coords.len(),
        flat_coords(coords)[2 * i] == coords[i].0,
        flat_coords(coords)[2 * i + 1] == coords[i].1,
{
    assert((2 * i) / 2 == i && (2 * i + 1) / 2 == i && (2 * i) % 2 == 0 && (2 * i + 1) % 2 == 1);
}

/// The kernel that sets the lowest coefficients of a transform from the means of
/// the 8x8 blocks.
pub open spec fn lowest_kernel(t: Transform) -> Kernel {
    match t {
        Transform::Dct16x16 => Kernel::SetLlfDct16x16Indexed,
        Transform::Dct16x8 | Transform::Dct8x16 => Kernel::SetLlfDct16x8Or8x16Indexed,
        Transform::Dct32x32 => Kernel::SetLlfDct32x32Indexed,
        Transform::Dct32x16 => Kernel::SetLlfDct32x16Indexed,
        Transform::Dct16x32 => Kernel::SetLlfDct16x32Indexed,
        Transform::Dct64x64 => Kernel::SetLlfDct64x64Indexed,
        Transform::Dct64x32 => Kernel::SetLlfDct64x32Indexed,
        Transform::Dct32x64 => Kernel::SetLlfDct32x64Indexed,
        Transform::Dct8x8
        | Transform::Dct4x4
        | Transform::Dct4x8
        | Transform::Dct8x4
        | Transform::Identity
        | Transform::Dct2x2 => Kernel::SetDcFromGridIndexed,
    }
}

/// What setting the lowest coefficients of blocks from the means of the 8x8
/// blocks records. `step` is how far apart the two means of a DCT16x8 or a
/// DCT8x16 stand.
pub open spec fn lowest_steps(
    t: Transform,
    s: Recording,
    dc_grid: GpuBlocks,
    coords: Seq<(u32, u32)>,
    dst: GpuBlocks,
    stride: u32,
    step: u32,
) -> Recording {
    match t {
        Transform::Dct16x16 => set_llf_dct16x16_indexed_persistent_steps(
            s,
            dc_grid,
            coords,
            dst,
            stride,
        ),
        Transform::Dct16x8
        | Transform::Dct8x16 => set_llf_dct16x8_or_8x16_indexed_persistent_steps(
            s,
            dc_grid,
            coords,
            dst,
            stride,
            step,
        ),
        Transform::Dct32x32 => set_llf_dct32x32_indexed_persistent_steps(
            s,
            dc_grid,
            coords,
            dst,
            stride,
        ),
        Transform::Dct32x16 => set_llf_dct32x16_indexed_persistent_steps(
            s,
            dc_grid,
            coords,
            dst,
            stride,
        ),
        Transform::Dct16x32 => set_llf_dct16x32_indexed_persistent_steps(
            s,
            dc_grid,
            coords,
            dst,
            stride,
        ),
        Transform::Dct64x64 => set_llf_dct64x64_indexed_persistent_steps(
            s,
            dc_grid,
            coords,
            dst,
            stride,
        ),
        Transform::Dct64x32 => set_llf_dct64x32_indexed_persistent_steps(
            s,
            dc_grid,
            coords,
            dst,
            stride,
        ),
        Transform::Dct32x64 => set_llf_dct32x64_indexed_persistent_steps(
            s,
            dc_grid,
            coords,
            dst,
            stride,
        ),
        Transform::Dct8x8
        | Transform::Dct4x4
        | Transform::Dct4x8
        | Transform::Dct8x4
        | Transform::Identity
        | Transform::Dct2x2 => set_dc_from_grid_indexed_persistent_steps(
            s,
            dc_grid,
            coords,
            dst,
            stride,
        ),
    }
}

/// The lowest coefficients of blocks are set by the transform's own kernel, from
/// the means of the 8x8 blocks and the positions of the blocks among them.
#[verifier::rlimit(60)]
pub proof fn law_lowest_coefficients_are_set_from_the_means(
    run: Run,
    s: Recording,
    t: Transform,
    dc_grid: GpuBlocks,
    coords: Seq<(u32, u32)>,
    dst: GpuBlocks,
    stride: u32,
    step: u32,
)
    requires
        run.ready(s, 1),
        dc_grid.handle.id < s.buffers.len(),
        dst.handle.id < s.buffers.len(),
    ensures
        ({
            let n = dst.num_blocks;
            let s1 = lowest_steps(t, s, dc_grid, coords, dst, stride, step);
            let two = lowest_kernel(t) == Kernel::SetLlfDct16x8Or8x16Indexed;
            let made = (run.device.kernels)(
                lowest_kernel(t),
                if two || lowest_kernel(t) == Kernel::SetLlfDct16x16Indexed {
                    spread(n as int, 256)
                } else {
                    Grid::Items { count: n }
                },
                seq![
                    word(run.held(s, dc_grid.handle), dc_grid.num_blocks as int),
                    word(bytes_of_words(flat_coords(coords)), n * 2),
                    word(run.held(s, dst.handle), n * dst.coeffs_per_block),
                ],
                if two {
                    seq![
                        Scalar::U32(stride),
                        Scalar::U32(step),
                        Scalar::U32(dst.coeffs_per_block),
                        Scalar::U32(n),
                    ]
                } else {
                    seq![
                        Scalar::U32(stride),
                        Scalar::U32(dst.coeffs_per_block),
                        Scalar::U32(n),
                    ]
                },
            );
            run.held(s1, dst.handle) == made[2]
        }),
{
    reveal(set_llf_dct16x16_indexed_persistent_steps);
    reveal(set_llf_dct16x8_or_8x16_indexed_persistent_steps);
    reveal(set_llf_dct32x32_indexed_persistent_steps);
    reveal(set_llf_dct32x16_indexed_persistent_steps);
    reveal(set_llf_dct16x32_indexed_persistent_steps);
    reveal(set_llf_dct64x64_indexed_persistent_steps);
    reveal(set_llf_dct64x32_indexed_persistent_steps);
    reveal(set_llf_dct32x64_indexed_persistent_steps);
    reveal(set_dc_from_grid_indexed_persistent_steps);
    let n = dst.num_blocks;
    let h = s.next();
    let words = flat_coords(coords);
    let t1 = s.create(words);
    lemma_made(run, s, t1, CommandSpec::Create { words });
    let grid_n = dc_grid.num_blocks as u64;
    assert(0 <= n * dst.coeffs_per_block <= 0xffff_ffff * 0xffff_ffff) by (nonlinear_arith)
        requires
            n <= 0xffff_ffff,
            dst.coeffs_per_block <= 0xffff_ffff,
    ;
    let dst_n = (n * dst.coeffs_per_block) as u64;
    let d = dc_grid.handle;
    let o = dst.handle;
    let c = dst.coeffs_per_block;
    let l = match t {
        Transform::Dct16x16 => set_llf_dct16x16_indexed_launch(
            d,
            h,
            o,
            grid_n,
            dst_n,
            stride,
            c,
            n,
        ),
        Transform::Dct16x8 | Transform::Dct8x16 => set_llf_dct16x8_or_8x16_indexed_launch(
            d,
            h,
            o,
            grid_n,
            dst_n,
            stride,
            step,
            c,
            n,
        ),
        Transform::Dct32x32 => set_llf_dct32x32_indexed_launch(
            d,
            h,
            o,
            grid_n,
            dst_n,
            stride,
            c,
            n,
        ),
        Transform::Dct32x16 => set_llf_dct32x16_indexed_launch(
            d,
            h,
            o,
            grid_n,
            dst_n,
            stride,
            c,
            n,
        ),
        Transform::Dct16x32 => set_llf_dct16x32_indexed_launch(
            d,
            h,
            o,
            grid_n,
            dst_n,
            stride,
            c,
            n,
        ),
        Transform::Dct64x64 => set_llf_dct64x64_indexed_launch(
            d,
            h,
            o,
            grid_n,
            dst_n,
            stride,
            c,
            n,
        ),
        Transform::Dct64x32 => set_llf_dct64x32_indexed_launch(
            d,
            h,
            o,
            grid_n,
            dst_n,
            stride,
            c,
            n,
        ),
        Transform::Dct32x64 => set_llf_dct32x64_indexed_launch(
            d,
            h,
            o,
            grid_n,
            dst_n,
            stride,
            c,
            n,
        ),
        Transform::Dct8x8
        | Transform::Dct4x4
        | Transform::Dct4x8
        | Transform::Dct8x4
        | Transform::Identity
        | Transform::Dct2x2 => set_dc_from_grid_indexed_launch(
            d,
            h,
            o,
            grid_n,
            dst_n,
            stride,
            c,
            n,
        ),
    };
    assert(l.arrays.len() == 3 && l.arrays[2].handle == o);
    assert(operands(run.memory(t1), l.arrays) =~= seq![
        word(run.held(s, d), dc_grid.num_blocks as int),
        word(bytes_of_words(words), n * 2),
        word(run.held(s, o), n * c),
    ]);
    lemma_written(run, t1, l, 2);
}

/// The pixel losses of blocks are made of their errors, the mask, and where each
/// block stands in it.
pub proof fn law_losses_are_of_the_errors_and_the_mask(
    run: Run,
    s: Recording,
    pixel_error: GpuBlocks,
    mask_plane: GpuPlane,
    mask_row_base: Seq<u32>,
    mask_offset: Float32,
    block_width: u32,
    block_height: u32,
)
    requires
        run.ready(s, 2),
        pixel_error.handle.id < s.buffers.len(),
        mask_plane.handle.id < s.buffers.len(),
    ensures
        ({
            let n = pixel_error.num_blocks;
            let (s1, r) = pixel_loss_blocks_persistent_steps(
                s,
                pixel_error,
                mask_plane,
                mask_row_base,
                mask_offset,
                block_width,
                block_height,
            );
            let made = (run.device.kernels)(
                Kernel::PixelLoss,
                cube_each(n, 1),
                seq![
                    word(run.held(s, pixel_error.handle), n * block_width * block_height),
                    word(run.held(s, mask_plane.handle), mask_plane.width * mask_plane.height),
                    word(bytes_of_words(mask_row_base), n as int),
                    double((run.device.fresh)((n * 8) as u64), n as int),
                ],
                seq![
                    Scalar::U32(mask_plane.width),
                    Scalar::F32(mask_offset),
                    Scalar::U32(block_width),
                    Scalar::U32(block_height),
                ],
            );
            &&& r.num_blocks == n
            &&& r.coeffs_per_block == 1
            &&& run.held(s1, r.handle) == made[3]
        }),
{
    reveal(pixel_loss_blocks_persistent_steps);
    let n = pixel_error.num_blocks;
    let h_mrb = s.next();
    let t1 = s.create(mask_row_base);
    lemma_made(run, s, t1, CommandSpec::Create { words: mask_row_base });
    let h_out = t1.next();
    let t2 = t1.empty(n * 8);
    lemma_made(run, t1, t2, CommandSpec::Empty { bytes: (n * 8) as u64 });
    assert(0 <= mask_plane.width * mask_plane.height <= 0xffff_ffff * 0xffff_ffff)
        by (nonlinear_arith)
        requires
            mask_plane.width <= 0xffff_ffff,
            mask_plane.height <= 0xffff_ffff,
    ;
    let l = pixel_loss_launch(
        pixel_error.handle,
        mask_plane.handle,
        h_mrb,
        h_out,
        n,
        (mask_plane.width * mask_plane.height) as u64,
        mask_plane.width,
        mask_offset,
        block_width,
        block_height,
    );
    assert(operands(run.memory(t2), l.arrays) =~= seq![
        word(run.held(s, pixel_error.handle), n * block_width * block_height),
        word(run.held(s, mask_plane.handle), mask_plane.width * mask_plane.height),
        word(bytes_of_words(mask_row_base), n as int),
        double((run.device.fresh)((n * 8) as u64), n as int),
    ]);
    lemma_written(run, t2, l, 3);
}

/// Blocks are taken out of a plane at the positions given.
pub proof fn law_blocks_are_taken_at_their_positions(
    run: Run,
    s: Recording,
    plane: GpuPlane,
    coords: Seq<(u32, u32)>,
    tile_w: u32,
    tile_h: u32,
)
    requires
        run.ready(s, 2),
        plane.handle.id < s.buffers.len(),
        coords.len() <= u32::MAX,
    ensures
        ({
            let n = coords.len() as u32;
            let (s1, r) = indexed_gather_blocks_persistent_steps(
                s,
                plane,
                coords,
                tile_w,
                tile_h,
            );
            let made = (run.device.kernels)(
                Kernel::IndexedGather,
                spread(n * tile_w * tile_h, 256),
                seq![
                    word(run.held(s, plane.handle), plane.width * plane.height),
                    word(bytes_of_words(flat_coords(coords)), n * 2),
                    run.device.blank(n * tile_w * tile_h),
                ],
                seq![
                    Scalar::U32(plane.width),
                    Scalar::U32(tile_w),
                    Scalar::U32(tile_h),
                    Scalar::U32((n * tile_w * tile_h) as u32),
                ],
            );
            &&& r.num_blocks == coords.len()
            &&& r.coeffs_per_block == (tile_w * tile_h) as u32
            &&& run.held(s1, r.handle) == made[2]
        }),
{
    reveal(indexed_gather_blocks_persistent_steps);
    let n = coords.len() as u32;
    let words = flat_coords(coords);
    let h_coords = s.next();
    let t1 = s.create(words);
    lemma_made(run, s, t1, CommandSpec::Create { words });
    let h_out = t1.next();
    let bytes = coords.len() * tile_w * tile_h * 4;
    let t2 = t1.empty(bytes);
    lemma_made(run, t1, t2, CommandSpec::Empty { bytes: bytes as u64 });
    assert(0 <= plane.width * plane.height <= 0xffff_ffff * 0xffff_ffff) by (nonlinear_arith)
        requires
            plane.width <= 0xffff_ffff,
            plane.height <= 0xffff_ffff,
    ;
    let l = indexed_gather_launch(
        plane.handle,
        h_coords,
        h_out,
        plane.width,
        (plane.width * plane.height) as u64,
        n,
        tile_w,
        tile_h,
    );
    assert(operands(run.memory(t2), l.arrays) =~= seq![
        word(run.held(s, plane.handle), plane.width * plane.height),
        word(bytes_of_words(words), n * 2),
        run.device.blank(n * tile_w * tile_h),
    ]);
    lemma_written(run, t2, l, 2);
}

/// Blocks are put into a plane at the positions given.
pub proof fn law_blocks_are_put_at_their_positions(
    run: Run,
    s: Recording,
    blocks: GpuBlocks,
    coords: Seq<(u32, u32)>,
    plane: GpuPlane,
    tile_w: u32,
    tile_h: u32,
)
    requires
        run.ready(s, 1),
        blocks.handle.id < s.buffers.len(),
        plane.handle.id < s.buffers.len(),
    ensures
        ({
            let n = blocks.num_blocks;
            let s1 = indexed_scatter_blocks_persistent_steps(
                s,
                blocks,
                coords,
                plane,
                tile_w,
                tile_h,
            );
            let made = (run.device.kernels)(
                Kernel::IndexedScatter,
                Grid::Items { count: (n * tile_w * tile_h) as u32 },
                seq![
                    word(run.held(s, blocks.handle), n * tile_w * tile_h),
                    word(bytes_of_words(flat_coords(coords)), n * 2),
                    word(run.held(s, plane.handle), plane.width * plane.height),
                ],
                seq![
                    Scalar::U32(plane.width),
                    Scalar::U32(tile_w),
                    Scalar::U32(tile_h),
                    Scalar::U32((n * tile_w * tile_h) as u32),
                ],
            );
            run.held(s1, plane.handle) == made[2]
        }),
{
    reveal(indexed_scatter_blocks_persistent_steps);
    let n = blocks.num_blocks;
    let words = flat_coords(coords);
    let h_coords = s.next();
    let t1 = s.create(words);
    lemma_made(run, s, t1, CommandSpec::Create { words });
    assert(0 <= plane.width * plane.height <= 0xffff_ffff * 0xffff_ffff) by (nonlinear_arith)
        requires
            plane.width <= 0xffff_ffff,
            plane.height <= 0xffff_ffff,
    ;
    let l = indexed_scatter_launch(
        blocks.handle,
        h_coords,
        plane.handle,
        plane.width,
        (plane.width * plane.height) as u64,
        n,
        tile_w,
        tile_h,
    );
    assert(operands(run.memory(t1), l.arrays) =~= seq![
        word(run.held(s, blocks.handle), n * tile_w * tile_h),
        word(bytes_of_words(words), n * 2),
        word(run.held(s, plane.handle), plane.width * plane.height),
    ]);
    lemma_written(run, t1, l, 2);
}

/// Counting tokens reads back a histogram that starts with zeros: what the
/// kernel makes of the tokens, or the zeros where there are none.
pub proof fn law_counting_starts_with_zeros(
    run: Run,
    s: Recording,
    tokens: Handle,
    n: u32,
    bucket_count: u32,
)
    requires
        run.ready(s, 1),
        tokens.id < s.buffers.len(),
    ensures
        ({
            let zeros = bytes_of_words(Seq::new(bucket_count as nat, |i: int| 0u32));
            let made = (run.device.kernels)(
                Kernel::HistogramCountPow2,
                spread(n as int, 256),
                seq![
                    word(run.held(s, tokens), n as int),
                    word(zeros, bucket_count as int),
                ],
                seq![Scalar::U32((bucket_count - 1) as u32)],
            );
            run.replies(histogram_steps(s, tokens, n, bucket_count)) == run.replies(s).push(
                if n == 0 {
                    zeros
                } else {
                    made[1]
                },
            )
        }),
{
    reveal(histogram_steps);
    let words = Seq::new(bucket_count as nat, |i: int| 0u32);
    let h = s.next();
    let t1 = s.create(words);
    lemma_made(run, s, t1, CommandSpec::Create { words });
    let l = histogram_count_pow2_launch(tokens, h, n, bucket_count);
    let t2 = if n == 0 {
        t1
    } else {
        t1.launch(l)
    };
    if n != 0 {
        assert(operands(run.memory(t1), l.arrays) =~= seq![
            word(run.held(s, tokens), n as int),
            word(bytes_of_words(words), bucket_count as int),
        ]);
        lemma_written(run, t1, l, 1);
        crate::dataflow::lemma_launched(run, t1, l);
    }
    lemma_read(run, t2, seq![h]);
    assert(run.replies(t2.read(seq![h])) =~= run.replies(s).push(run.held(t2, h)));
}

} // verus!

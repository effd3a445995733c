//! What an encoding comes to on a device.

use crate::dataflow::{kept, lemma_read, stored_numbers, Bytes, Run, Three};
use crate::device::{Kernel, Recording};
use crate::encode::{encode_steps, padded_plane, upload_image_steps, Image};
use crate::execution::{held, DeviceModel};
use crate::float::{product, Float32};
use crate::functions::Size;
use crate::lossy_encoder::{FilterParameters, LossyEncoder};
use crate::operations::{
    blocks_lie_in, lemma_colours, lemma_dct8, lemma_dequantized, lemma_exact_means,
    lemma_first_pass, lemma_framed, lemma_idct8, lemma_in_blocks, lemma_in_rows, lemma_light,
    lemma_quantized, lemma_second_pass, lemma_sharpened, lemma_smoothed, lemma_smoothed_three,
    lemma_strengths, lemma_uploaded, lies_in, went_on,
};
use crate::padding::{cropped, law_crop_undoes_pad};
use crate::persistent::{
    dct_8x8_wide_persistent_steps, dequant_dct8_persistent_broadcast_w_steps,
    epf_step1_persistent_steps, epf_step2_persistent_steps, gab_smooth_persistent_steps,
    gaborish_5x5_persistent_steps, gather_blocks_persistent_steps, idct_8x8_wide_persistent_steps,
    pad_plane_3ch_steps, pad_plane_persistent_steps, quantize_dct8_persistent_broadcast_w_steps,
    restore_dc_persistent_steps, scatter_blocks_persistent_steps, upload_inv_sigma_steps,
    upload_plane_steps, xyb_from_linear_rgb_persistent_steps,
};
use crate::pipeline::{
    analysis_steps, derived_distance, pipeline_steps, restoration_steps, sharpened_steps,
    smoothed_steps, synthesis_steps, Blocks, Planes,
};
use crate::plan::{after_plan_steps, smoothed_together_steps};
use crate::quality::{float, HALF};
use vstd::prelude::*;

verus! {

/// The padded size of an encoder's images.
pub open spec fn padded_size(le: LossyEncoder) -> Size {
    Size { width: le.padded_width, height: le.padded_height }
}

/// What three planes hold.
pub open spec fn three_held(run: Run, s: Recording, p: Planes) -> Three {
    (run.held(s, p.0.handle), run.held(s, p.1.handle), run.held(s, p.2.handle))
}

/// What three sets of blocks hold.
pub open spec fn blocks_held(run: Run, s: Recording, b: Blocks) -> Three {
    (run.held(s, b.0.handle), run.held(s, b.1.handle), run.held(s, b.2.handle))
}

/// The quantization matrices of an encoder.
pub open spec fn matrices(run: Run, s: Recording, le: LossyEncoder) -> Three {
    blocks_held(run, s, (le.weights_x, le.weights_y, le.weights_b))
}

/// Whether three planes of a size are among the buffers of a recording.
pub open spec fn three_lie_in(s: Recording, p: Planes, size: Size) -> bool {
    lies_in(s, p.0, size) && lies_in(s, p.1, size) && lies_in(s, p.2, size)
}

/// Whether three sets of 8x8 blocks are among the buffers of a recording.
pub open spec fn three_blocks_lie_in(s: Recording, b: Blocks, n: u32) -> bool {
    blocks_lie_in(s, b.0, n) && blocks_lie_in(s, b.1, n) && blocks_lie_in(s, b.2, n)
}

/// The coefficients of a channel: of its 8x8 blocks, sharpened or not.
pub open spec fn coefficients(d: DeviceModel, le: LossyEncoder, sharp: bool, p: Bytes) -> Bytes {
    let size = padded_size(le);
    let q = if sharp {
        d.sharpened(size, le.weights, p)
    } else {
        p
    };
    d.dct8(le.num_blocks as int, d.in_blocks(size, q))
}

/// A channel from its coefficients.
pub open spec fn from_coefficients(d: DeviceModel, le: LossyEncoder, c: Bytes) -> Bytes {
    d.in_rows(padded_size(le), d.idct8(le.num_blocks as int, c))
}

/// No luminance at all, for each of `n` blocks.
pub open spec fn no_luminance(n: u32) -> Seq<Float32> {
    Seq::new(n as nat, |i: int| Float32 { bits: 0 })
}

/// What is left of coefficients that were quantized, each channel with its own
/// matrix and thresholds and by its own coefficients alone; but their first ones
/// are kept.
pub open spec fn quantized_and_back(
    d: DeviceModel,
    le: LossyEncoder,
    m: Three,
    qac: Seq<Float32>,
    c: Three,
) -> Three {
    let n = le.num_blocks;
    let q = (
        d.quantized(n, c.0, m.0, qac, le.thresholds_x@),
        d.quantized(n, c.1, m.1, qac, le.thresholds_y@),
        d.quantized(n, c.2, m.2, qac, le.thresholds_b@),
    );
    let r = d.dequantized(n, q, m, qac, no_luminance(n), no_luminance(n));
    (
        d.with_exact_means(n, c.0, r.0),
        d.with_exact_means(n, c.1, r.1),
        d.with_exact_means(n, c.2, r.2),
    )
}

/// Both passes of the edge-preserving filter.
pub open spec fn both_passes(
    d: DeviceModel,
    size: Size,
    f: FilterParameters,
    strengths: Seq<Float32>,
    p: Three,
) -> Three {
    // 1.65.
    let scale = Float32 { bits: 0x3fd3_3333 };
    let first = d.edge_filtered(
        Kernel::EpfStep1,
        size,
        2,
        p,
        strengths,
        scale,
        f.epf_border_sad_mul,
    );
    d.edge_filtered(
        Kernel::EpfStep2,
        size,
        1,
        first,
        strengths,
        product(f.epf_pass2_sigma_scale, scale),
        f.epf_border_sad_mul,
    )
}

/// What a decoder shows of planes of light that were encoded with a scale for
/// each block.
pub open spec fn shown(
    d: DeviceModel,
    le: LossyEncoder,
    m: Three,
    image: Three,
    qac: Seq<Float32>,
    f: FilterParameters,
    strengths: Seq<Float32>,
) -> Three {
    let size = padded_size(le);
    let sharp = float(HALF).less(derived_distance(qac));
    let xyb = d.opponent_colours(size.pixels(), image.0, image.1, image.2);
    let c = (
        coefficients(d, le, sharp, xyb.0),
        coefficients(d, le, sharp, xyb.1),
        coefficients(d, le, sharp, xyb.2),
    );
    let r = quantized_and_back(d, le, m, qac, c);
    let p = (
        from_coefficients(d, le, r.0),
        from_coefficients(d, le, r.1),
        from_coefficients(d, le, r.2),
    );
    let p = if sharp {
        (d.smoothed(size, f, p.0), d.smoothed(size, f, p.1), d.smoothed(size, f, p.2))
    } else {
        p
    };
    let p = both_passes(d, size, f, strengths, p);
    d.light(size.pixels(), p.0, p.1, p.2)
}

pub proof fn lemma_sizes(le: LossyEncoder)
    requires
        le.wf(),
        le.countable(),
    ensures
        padded_size(le).plain(),
        padded_size(le).blocks() == le.num_blocks,
{
}

pub proof fn lemma_three_sharpened(run: Run, s: Recording, le: LossyEncoder, p: Planes, sharp: bool)
    requires
        run.ready(s, 3),
        three_lie_in(s, p, padded_size(le)),
    ensures
        ({
            let size = padded_size(le);
            let (s1, r) = sharpened_steps(s, le, p, sharp);
            let h = three_held(run, s, p);
            &&& went_on(run, s, s1, if sharp { 3 } else { 0 })
            &&& three_lie_in(s1, r, size)
            &&& three_held(run, s1, r) == if sharp {
                (
                    run.device.sharpened(size, le.weights, h.0),
                    run.device.sharpened(size, le.weights, h.1),
                    run.device.sharpened(size, le.weights, h.2),
                )
            } else {
                h
            }
        }),
{
    reveal(sharpened_steps);
    let size = padded_size(le);
    if sharp {
        let (s1, x) = gaborish_5x5_persistent_steps(s, p.0, le.weights);
        let (s2, y) = gaborish_5x5_persistent_steps(s1, p.1, le.weights);
        lemma_sharpened(run, s, p.0, le.weights, size);
        lemma_sharpened(run, s1, p.1, le.weights, size);
        lemma_sharpened(run, s2, p.2, le.weights, size);
    }
}

proof fn lemma_analysis(
    run: Run,
    s: Recording,
    le: LossyEncoder,
    p: Planes,
    sharp: bool,
)
    requires
        run.ready(s, 12),
        le.wf(),
        le.countable(),
        three_lie_in(s, p, padded_size(le)),
    ensures
        ({
            let d = run.device;
            let (s1, c) = analysis_steps(s, le, p.0, p.1, p.2, sharp);
            let h = three_held(run, s, p);
            let xyb = d.opponent_colours(padded_size(le).pixels(), h.0, h.1, h.2);
            &&& went_on(run, s, s1, if sharp { 12 } else { 9 })
            &&& three_blocks_lie_in(s1, c, le.num_blocks)
            &&& blocks_held(run, s1, c) == (
                coefficients(d, le, sharp, xyb.0),
                coefficients(d, le, sharp, xyb.1),
                coefficients(d, le, sharp, xyb.2),
            )
        }),
{
    reveal(analysis_steps);
    lemma_sizes(le);
    let size = padded_size(le);
    let (s1, xyb) = xyb_from_linear_rgb_persistent_steps(s, p.0, p.1, p.2);
    let (s4, q) = sharpened_steps(s1, le, xyb, sharp);
    let (s5, bx) = gather_blocks_persistent_steps(s4, q.0, 8, 8);
    let (s6, by) = gather_blocks_persistent_steps(s5, q.1, 8, 8);
    let (s7, bb) = gather_blocks_persistent_steps(s6, q.2, 8, 8);
    let (s8, cx) = dct_8x8_wide_persistent_steps(s7, bx);
    let (s9, cy) = dct_8x8_wide_persistent_steps(s8, by);
    lemma_colours(run, s, p.0, p.1, p.2, size);
    lemma_three_sharpened(run, s1, le, xyb, sharp);
    lemma_in_blocks(run, s4, q.0, size);
    lemma_in_blocks(run, s5, q.1, size);
    lemma_in_blocks(run, s6, q.2, size);
    lemma_dct8(run, s7, bx, le.num_blocks);
    lemma_dct8(run, s8, by, le.num_blocks);
    lemma_dct8(run, s9, bb, le.num_blocks);
}

#[verifier::rlimit(40)]
proof fn lemma_synthesis(run: Run, s: Recording, le: LossyEncoder, c: Blocks, qac: Seq<Float32>)
    requires
        run.ready(s, 23),
        le.wf(),
        le.countable(),
        three_blocks_lie_in(s, c, le.num_blocks),
        le.weights_x.handle.id < s.buffers.len(),
        le.weights_y.handle.id < s.buffers.len(),
        le.weights_b.handle.id < s.buffers.len(),
    ensures
        ({
            let d = run.device;
            let (s1, p) = synthesis_steps(s, le, c, qac);
            let r = quantized_and_back(d, le, matrices(run, s, le), qac, blocks_held(run, s, c));
            &&& went_on(run, s, s1, 23)
            &&& three_lie_in(s1, p, padded_size(le))
            &&& three_held(run, s1, p) == (
                from_coefficients(d, le, r.0),
                from_coefficients(d, le, r.1),
                from_coefficients(d, le, r.2),
            )
        }),
{
    reveal(synthesis_steps);
    lemma_sizes(le);
    let size = padded_size(le);
    let n = le.num_blocks;
    let d = run.device;
    let h = blocks_held(run, s, c);
    let m = matrices(run, s, le);
    let (s1, qx) = quantize_dct8_persistent_broadcast_w_steps(
        s,
        c.0,
        le.weights_x,
        qac,
        le.thresholds_x@,
    );
    let (s2, qy) = quantize_dct8_persistent_broadcast_w_steps(
        s1,
        c.1,
        le.weights_y,
        qac,
        le.thresholds_y@,
    );
    let (s3, qb) = quantize_dct8_persistent_broadcast_w_steps(
        s2,
        c.2,
        le.weights_b,
        qac,
        le.thresholds_b@,
    );
    lemma_quantized(run, s, c.0, le.weights_x, qac, le.thresholds_x@, n);
    lemma_quantized(run, s1, c.1, le.weights_y, qac, le.thresholds_y@, n);
    lemma_quantized(run, s2, c.2, le.weights_b, qac, le.thresholds_b@, n);
    let z = no_luminance(n);
    assert(z =~= crate::pipeline::zeros(n as nat));
    let w = (le.weights_x, le.weights_y, le.weights_b);
    let (s4, r) = dequant_dct8_persistent_broadcast_w_steps(
        s3,
        qx,
        qy,
        qb,
        w.0,
        w.1,
        w.2,
        qac,
        qac,
        qac,
        z,
        z,
    );
    lemma_dequantized(run, s3, (qx, qy, qb), w, qac, z, z, n);
    let s5 = restore_dc_persistent_steps(s4, c.0, r.0);
    let s6 = restore_dc_persistent_steps(s5, c.1, r.1);
    let s7 = restore_dc_persistent_steps(s6, c.2, r.2);
    lemma_exact_means(run, s4, c.0, r.0, n);
    lemma_exact_means(run, s5, c.1, r.1, n);
    lemma_exact_means(run, s6, c.2, r.2, n);
    let back = quantized_and_back(d, le, m, qac, h);
    assert(blocks_held(run, s7, r) == back);
    assert(went_on(run, s, s7, 17));
    let (s8, rx) = idct_8x8_wide_persistent_steps(s7, r.0);
    let (s9, ry) = idct_8x8_wide_persistent_steps(s8, r.1);
    let (s10, rb) = idct_8x8_wide_persistent_steps(s9, r.2);
    lemma_idct8(run, s7, r.0, n);
    lemma_idct8(run, s8, r.1, n);
    lemma_idct8(run, s9, r.2, n);
    let (s11, px) = scatter_blocks_persistent_steps(s10, rx, size.width, size.height, 8, 8);
    let (s12, py) = scatter_blocks_persistent_steps(s11, ry, size.width, size.height, 8, 8);
    lemma_in_rows(run, s10, rx, size);
    lemma_in_rows(run, s11, ry, size);
    lemma_in_rows(run, s12, rb, size);
}

proof fn lemma_smoothing(
    run: Run,
    s: Recording,
    p: Planes,
    f: FilterParameters,
    smooth: bool,
    size: Size,
)
    requires
        run.ready(s, 3),
        three_lie_in(s, p, size),
    ensures
        ({
            let (s1, r) = smoothed_steps(s, p, f, smooth);
            let h = three_held(run, s, p);
            &&& went_on(run, s, s1, if smooth { 3 } else { 0 })
            &&& three_lie_in(s1, r, size)
            &&& three_held(run, s1, r) == if smooth {
                (
                    run.device.smoothed(size, f, h.0),
                    run.device.smoothed(size, f, h.1),
                    run.device.smoothed(size, f, h.2),
                )
            } else {
                h
            }
        }),
{
    reveal(smoothed_steps);
    if smooth {
        let (s1, x) = gab_smooth_persistent_steps(s, p.0, f.gab_center, f.gab_1, f.gab_2);
        let (s2, y) = gab_smooth_persistent_steps(s1, p.1, f.gab_center, f.gab_1, f.gab_2);
        lemma_smoothed(run, s, p.0, f, size);
        lemma_smoothed(run, s1, p.1, f, size);
        lemma_smoothed(run, s2, p.2, f, size);
    }
}

proof fn lemma_three_framed(run: Run, s: Recording, p: Planes, pad: u32, size: Size)
    requires
        run.ready(s, 3),
        size.plain(),
        pad <= 2,
        three_lie_in(s, p, size),
    ensures
        ({
            let (s1, r) = pad_plane_3ch_steps(s, p.0, p.1, p.2, pad);
            let h = three_held(run, s, p);
            &&& went_on(run, s, s1, 3)
            &&& r.0.handle.id < s1.buffers.len()
            &&& r.1.handle.id < s1.buffers.len()
            &&& r.2.handle.id < s1.buffers.len()
            &&& three_held(run, s1, r) == (
                run.device.framed(size, pad, h.0),
                run.device.framed(size, pad, h.1),
                run.device.framed(size, pad, h.2),
            )
        }),
{
    reveal(pad_plane_3ch_steps);
    let (s1, x) = pad_plane_persistent_steps(s, p.0, pad);
    let (s2, y) = pad_plane_persistent_steps(s1, p.1, pad);
    lemma_framed(run, s, p.0, pad, size);
    lemma_framed(run, s1, p.1, pad, size);
    lemma_framed(run, s2, p.2, pad, size);
}

#[verifier::rlimit(40)]
proof fn lemma_restoration(
    run: Run,
    s: Recording,
    le: LossyEncoder,
    p: Planes,
    f: FilterParameters,
    strengths: Seq<Float32>,
)
    requires
        run.ready(s, 16),
        le.wf(),
        le.countable(),
        three_lie_in(s, p, padded_size(le)),
    ensures
        ({
            let d = run.device;
            let size = padded_size(le);
            let (s1, rgb) = restoration_steps(s, le, p, f, strengths);
            let q = both_passes(d, size, f, strengths, three_held(run, s, p));
            &&& went_on(run, s, s1, 16)
            &&& three_lie_in(s1, rgb, size)
            &&& three_held(run, s1, rgb) == d.light(size.pixels(), q.0, q.1, q.2)
        }),
{
    reveal(restoration_steps);
    lemma_sizes(le);
    let size = padded_size(le);
    let scale = Float32 { bits: 0x3fd3_3333 };
    let border = f.epf_border_sad_mul;
    let second = product(f.epf_pass2_sigma_scale, scale);
    let (w, h) = (size.width, size.height);
    let (s1, sigma) = upload_inv_sigma_steps(s, strengths);
    let (s2, p1) = pad_plane_3ch_steps(s1, p.0, p.1, p.2, 2);
    let (s3, e1) = epf_step1_persistent_steps(
        s2, p1.0, p1.1, p1.2, sigma, w, h, w / 8, h / 8, 2, scale, border,
    );
    let (s4, p2) = pad_plane_3ch_steps(s3, e1.0, e1.1, e1.2, 1);
    let (s5, e2) = epf_step2_persistent_steps(
        s4, p2.0, p2.1, p2.2, sigma, w, h, w / 8, h / 8, 1, second, border,
    );
    lemma_strengths(run, s, strengths);
    lemma_three_framed(run, s1, p, 2, size);
    let plain = three_held(run, s, p);
    lemma_first_pass(run, s2, p1, plain, sigma, strengths, 2, scale, border, size);
    lemma_three_framed(run, s3, e1, 1, size);
    let once = three_held(run, s3, e1);
    lemma_second_pass(run, s4, p2, once, sigma, strengths, 1, second, border, size);
    lemma_light(run, s5, e2.0, e2.1, e2.2, size);
}

/// What the pipeline reads back, on any device: what a decoder shows of the
/// planes that it is given. The earlier buffers stay as they are.
pub proof fn law_pipeline_shows_the_image(
    run: Run,
    s: Recording,
    le: LossyEncoder,
    p: Planes,
    qac: Seq<Float32>,
    f: FilterParameters,
    strengths: Seq<Float32>,
)
    requires
        run.ready(s, 54),
        le.wf(),
        le.countable(),
        three_lie_in(s, p, padded_size(le)),
        le.weights_x.handle.id < s.buffers.len(),
        le.weights_y.handle.id < s.buffers.len(),
        le.weights_b.handle.id < s.buffers.len(),
    ensures
        ({
            let (s1, rgb) = pipeline_steps(s, le, p.0, p.1, p.2, qac, f, strengths);
            let out = shown(
                run.device,
                le,
                matrices(run, s, le),
                three_held(run, s, p),
                qac,
                f,
                strengths,
            );
            &&& three_held(run, s1, rgb) == out
            &&& run.replies(s1) == run.replies(s) + seq![out.0, out.1, out.2]
            &&& kept(run.memory(s), run.memory(s1))
        }),
{
    reveal(pipeline_steps);
    let sharp = float(HALF).less(derived_distance(qac));
    let size = padded_size(le);
    let (s1, c) = analysis_steps(s, le, p.0, p.1, p.2, sharp);
    let (s2, q) = synthesis_steps(s1, le, c, qac);
    let (s3, t) = smoothed_steps(s2, q, f, sharp);
    let (s4, rgb) = restoration_steps(s3, le, t, f, strengths);
    lemma_analysis(run, s, le, p, sharp);
    assert(matrices(run, s1, le) == matrices(run, s, le));
    lemma_synthesis(run, s1, le, c, qac);
    lemma_smoothing(run, s2, q, f, sharp, size);
    lemma_restoration(run, s3, le, t, f, strengths);
    let handles = seq![rgb.0.handle, rgb.1.handle, rgb.2.handle];
    lemma_read(run, s4, handles);
    let out = three_held(run, s4, rgb);
    assert(Seq::new(handles.len(), |i: int| run.held(s4, handles[i])) =~= seq![
        out.0,
        out.1,
        out.2,
    ]);
}

/// An image as the device is given it, padded.
pub open spec fn image_bytes(le: LossyEncoder, image: Image) -> Three {
    (
        stored_numbers(padded_plane(le, image.0)),
        stored_numbers(padded_plane(le, image.1)),
        stored_numbers(padded_plane(le, image.2)),
    )
}

/// What an encoding reads back, on any device: what a decoder shows of the
/// image.
pub proof fn law_encoding_shows_the_image(
    run: Run,
    s: Recording,
    le: LossyEncoder,
    image: Image,
    qac: Seq<Float32>,
    f: FilterParameters,
    strengths: Seq<Float32>,
)
    requires
        run.ready(s, 57),
        le.wf(),
        le.countable(),
        le.weights_x.handle.id < s.buffers.len(),
        le.weights_y.handle.id < s.buffers.len(),
        le.weights_b.handle.id < s.buffers.len(),
    ensures
        ({
            let (s1, rgb) = encode_steps(s, le, image, qac, f, strengths);
            let out = shown(
                run.device,
                le,
                matrices(run, s, le),
                image_bytes(le, image),
                qac,
                f,
                strengths,
            );
            &&& three_held(run, s1, rgb) == out
            &&& run.replies(s1) == run.replies(s) + seq![out.0, out.1, out.2]
        }),
{
    reveal(upload_image_steps);
    let size = padded_size(le);
    let (s1, r) = upload_plane_steps(s, padded_plane(le, image.0), size.width, size.height);
    let (s2, g) = upload_plane_steps(s1, padded_plane(le, image.1), size.width, size.height);
    let (s3, b) = upload_plane_steps(s2, padded_plane(le, image.2), size.width, size.height);
    lemma_uploaded(run, s, padded_plane(le, image.0), size);
    lemma_uploaded(run, s1, padded_plane(le, image.1), size);
    lemma_uploaded(run, s2, padded_plane(le, image.2), size);
    assert(matrices(run, s3, le) == matrices(run, s, le));
    law_pipeline_shows_the_image(run, s3, le, (r, g, b), qac, f, strengths);
}

/// Whether nothing is lost on a device: the colours come back, smoothing undoes
/// sharpening, blocks go back to their places, the inverse transform undoes the
/// transform, the scales `qac` lose nothing where each channel is quantized with
/// its own matrix and thresholds, and the edge-preserving filter with these
/// strengths changes nothing.
pub open spec fn lossless(
    d: DeviceModel,
    le: LossyEncoder,
    m: Three,
    qac: Seq<Float32>,
    f: FilterParameters,
    strengths: Seq<Float32>,
) -> bool {
    let size = padded_size(le);
    let n = size.pixels();
    let k = le.num_blocks as int;
    &&& forall|r: Bytes, g: Bytes, b: Bytes|
        {
            let c = #[trigger] d.opponent_colours(n, r, g, b);
            d.light(n, c.0, c.1, c.2) == (r, g, b)
        }
    &&& forall|p: Bytes| d.smoothed(size, f, #[trigger] d.sharpened(size, le.weights, p)) == p
    &&& forall|p: Bytes| d.in_rows(size, #[trigger] d.in_blocks(size, p)) == p
    &&& forall|p: Bytes| d.idct8(k, #[trigger] d.dct8(k, p)) == p
    &&& forall|c: Three| #[trigger] quantized_and_back(d, le, m, qac, c) == c
    &&& forall|p: Three| #[trigger] both_passes(d, size, f, strengths, p) == p
}

/// Where nothing is lost on a device, what comes back is the image that was
/// encoded, once it is cropped.
pub proof fn law_what_loses_nothing_gives_back_the_image(
    run: Run,
    s: Recording,
    le: LossyEncoder,
    image: Image,
    qac: Seq<Float32>,
    f: FilterParameters,
    strengths: Seq<Float32>,
)
    requires
        run.ready(s, 57),
        le.wf(),
        le.countable(),
        le.weights_x.handle.id < s.buffers.len(),
        le.weights_y.handle.id < s.buffers.len(),
        le.weights_b.handle.id < s.buffers.len(),
        le.fits_image(image.0),
        le.fits_image(image.1),
        le.fits_image(image.2),
        lossless(run.device, le, matrices(run, s, le), qac, f, strengths),
    ensures
        ({
            let s1 = encode_steps(s, le, image, qac, f, strengths).0;
            let (pw, w, h) = (le.padded_width as int, le.width as int, le.height as int);
            let p = (
                padded_plane(le, image.0),
                padded_plane(le, image.1),
                padded_plane(le, image.2),
            );
            &&& run.replies(s1) == run.replies(s) + seq![
                stored_numbers(p.0),
                stored_numbers(p.1),
                stored_numbers(p.2),
            ]
            &&& cropped(p.0, pw, w, h) == image.0
            &&& cropped(p.1, pw, w, h) == image.1
            &&& cropped(p.2, pw, w, h) == image.2
        }),
{
    law_encoding_shows_the_image(run, s, le, image, qac, f, strengths);
    let (pw, ph) = (le.padded_width as int, le.padded_height as int);
    law_crop_undoes_pad(image.0, le.width as int, le.height as int, pw, ph);
    law_crop_undoes_pad(image.1, le.width as int, le.height as int, pw, ph);
    law_crop_undoes_pad(image.2, le.width as int, le.height as int, pw, ph);
    let d = run.device;
    let m = matrices(run, s, le);
    let i = image_bytes(le, image);
    let sharp = float(HALF).less(derived_distance(qac));
    let xyb = d.opponent_colours(padded_size(le).pixels(), i.0, i.1, i.2);
    let c = (
        coefficients(d, le, sharp, xyb.0),
        coefficients(d, le, sharp, xyb.1),
        coefficients(d, le, sharp, xyb.2),
    );
    assert(quantized_and_back(d, le, m, qac, c) == c);
    assert(both_passes(d, padded_size(le), f, strengths, xyb) == xyb);
}

/// What follows the reconstruction of an image by its plan, on any device: the
/// three planes smoothed above a distance of one half, both passes of the
/// edge-preserving filter, and linear light.
pub proof fn law_plans_are_shown_filtered(
    run: Run,
    s: Recording,
    le: LossyEncoder,
    recon: Planes,
    distance: Float32,
    f: FilterParameters,
    strengths: Seq<Float32>,
)
    requires
        run.ready(s, 19),
        le.wf(),
        le.countable(),
        three_lie_in(s, recon, padded_size(le)),
    ensures
        ({
            let d = run.device;
            let size = padded_size(le);
            let (s1, rgb) = after_plan_steps(s, le, recon, distance, f, strengths);
            let h = three_held(run, s, recon);
            let p = if float(HALF).less(distance) {
                d.smoothed_three(size, f, h)
            } else {
                h
            };
            let q = both_passes(d, size, f, strengths, p);
            &&& three_held(run, s1, rgb) == d.light(size.pixels(), q.0, q.1, q.2)
            &&& kept(run.memory(s), run.memory(s1))
            &&& run.replies(s1) == run.replies(s)
        }),
{
    reveal(smoothed_together_steps);
    let size = padded_size(le);
    let smooth = float(HALF).less(distance);
    let (s1, p) = smoothed_together_steps(s, recon, f, smooth);
    if smooth {
        lemma_smoothed_three(run, s, recon.0, recon.1, recon.2, f, size);
    }
    lemma_restoration(run, s1, le, p, f, strengths);
}

} // verus!

//! What holds of encoding an image once and several times over.

use crate::device::{CommandSpec, Handle, Recording};
use crate::encode::{
    encode_many_steps, encode_steps, padded_plane, pipelines_steps, upload_image_steps, Image,
};
use crate::float::Float32;
use crate::lossy_encoder::{FilterParameters, LossyEncoder};
use crate::persistent::{
    dct_8x8_wide_persistent_steps, dequant_dct8_persistent_broadcast_w_steps,
    epf_step1_persistent_steps, epf_step2_persistent_steps, gab_smooth_persistent_steps,
    gaborish_5x5_persistent_steps, gather_blocks_persistent_steps, idct_8x8_wide_persistent_steps,
    pad_plane_persistent_steps, quantize_dct8_persistent_broadcast_w_steps,
    restore_dc_persistent_steps, scatter_blocks_persistent_steps, upload_inv_sigma_steps,
    xyb_from_linear_rgb_persistent_steps, xyb_to_linear_rgb_planar_persistent_steps,
    pad_plane_3ch_steps, upload_plane_steps, GaborishWeights, GpuBlocks, GpuI32Blocks, GpuPlane,
};
use crate::pipeline::{
    analysis_steps, pipeline_steps, restoration_steps, sharpened_steps, smoothed_steps,
    synthesis_steps, uniform, Blocks, Planes,
};
use vstd::prelude::*;

verus! {

/// Whether a command uploads `n` words.
pub open spec fn uploads_words(c: CommandSpec, n: int) -> bool {
    c matches CommandSpec::Create { words } && words.len() == n
}

/// How many of the commands upload `n` words.
pub open spec fn upload_count(commands: Seq<CommandSpec>, n: int) -> nat
    decreases commands.len(),
{
    if commands.len() == 0 {
        0
    } else {
        upload_count(commands.drop_last(), n) + if uploads_words(commands.last(), n) {
            1nat
        } else {
            0nat
        }
    }
}

broadcast proof fn lemma_count_push(commands: Seq<CommandSpec>, c: CommandSpec, n: int)
    ensures
        #[trigger] upload_count(commands.push(c), n) == upload_count(commands, n) + (
        if uploads_words(c, n) {
            1nat
        } else {
            0nat
        }),
{
    assert(commands.push(c).drop_last() =~= commands);
}

proof fn lemma_xyb_from_linear_rgb_persistent(
    s: Recording,
    red: GpuPlane,
    green: GpuPlane,
    blue: GpuPlane,
    n: int,
)
    ensures
        upload_count(
            xyb_from_linear_rgb_persistent_steps(s, red, green, blue).0.commands,
            n,
        ) == upload_count(s.commands, n),
{
    broadcast use lemma_count_push;

    reveal(xyb_from_linear_rgb_persistent_steps);
}

proof fn lemma_gaborish_5x5_persistent(
    s: Recording,
    plane: GpuPlane,
    weights: GaborishWeights,
    n: int,
)
    ensures
        upload_count(
            gaborish_5x5_persistent_steps(s, plane, weights).0.commands,
            n,
        ) == upload_count(s.commands, n),
{
    broadcast use lemma_count_push;

    reveal(gaborish_5x5_persistent_steps);
}

proof fn lemma_gather_blocks_persistent(
    s: Recording,
    plane: GpuPlane,
    tile_w: u32,
    tile_h: u32,
    n: int,
)
    ensures
        upload_count(
            gather_blocks_persistent_steps(s, plane, tile_w, tile_h).0.commands,
            n,
        ) == upload_count(s.commands, n),
{
    broadcast use lemma_count_push;

    reveal(gather_blocks_persistent_steps);
}

proof fn lemma_dct_8x8_wide_persistent(
    s: Recording,
    blocks: GpuBlocks,
    n: int,
)
    ensures
        upload_count(
            dct_8x8_wide_persistent_steps(s, blocks).0.commands,
            n,
        ) == upload_count(s.commands, n),
{
    broadcast use lemma_count_push;

    reveal(dct_8x8_wide_persistent_steps);
}

proof fn lemma_idct_8x8_wide_persistent(
    s: Recording,
    blocks: GpuBlocks,
    n: int,
)
    ensures
        upload_count(
            idct_8x8_wide_persistent_steps(s, blocks).0.commands,
            n,
        ) == upload_count(s.commands, n),
{
    broadcast use lemma_count_push;

    reveal(idct_8x8_wide_persistent_steps);
}

proof fn lemma_quantize_dct8_persistent_broadcast_w(
    s: Recording,
    coeffs: GpuBlocks,
    weights: GpuBlocks,
    qac_qm: Seq<Float32>,
    thresholds: Seq<Float32>,
    n: int,
)
    requires
        qac_qm.len() != n,
        thresholds.len() != n,
    ensures
        upload_count(
            quantize_dct8_persistent_broadcast_w_steps(
                s,
                coeffs,
                weights,
                qac_qm,
                thresholds,
            ).0.commands,
            n,
        ) == upload_count(s.commands, n),
{
    broadcast use lemma_count_push;

    reveal(quantize_dct8_persistent_broadcast_w_steps);
}

proof fn lemma_dequant_dct8_persistent_broadcast_w(
    s: Recording,
    quant_x: GpuI32Blocks,
    quant_y: GpuI32Blocks,
    quant_b: GpuI32Blocks,
    weights_x: GpuBlocks,
    weights_y: GpuBlocks,
    weights_b: GpuBlocks,
    qac_qm_x: Seq<Float32>,
    qac_qm_y: Seq<Float32>,
    qac_qm_b: Seq<Float32>,
    x_factor: Seq<Float32>,
    b_factor: Seq<Float32>,
    n: int,
)
    requires
        qac_qm_x.len() != n,
        qac_qm_y.len() != n,
        qac_qm_b.len() != n,
        x_factor.len() != n,
        b_factor.len() != n,
    ensures
        upload_count(
            dequant_dct8_persistent_broadcast_w_steps(
                s,
                quant_x,
                quant_y,
                quant_b,
                weights_x,
                weights_y,
                weights_b,
                qac_qm_x,
                qac_qm_y,
                qac_qm_b,
                x_factor,
                b_factor,
            ).0.commands,
            n,
        ) == upload_count(s.commands, n),
{
    broadcast use lemma_count_push;

    reveal(dequant_dct8_persistent_broadcast_w_steps);
}

proof fn lemma_restore_dc_persistent(
    s: Recording,
    src: GpuBlocks,
    dst: GpuBlocks,
    n: int,
)
    ensures
        upload_count(
            restore_dc_persistent_steps(s, src, dst).commands,
            n,
        ) == upload_count(s.commands, n),
{
    broadcast use lemma_count_push;

    reveal(restore_dc_persistent_steps);
}

proof fn lemma_scatter_blocks_persistent(
    s: Recording,
    blocks: GpuBlocks,
    width: u32,
    height: u32,
    tile_w: u32,
    tile_h: u32,
    n: int,
)
    ensures
        upload_count(
            scatter_blocks_persistent_steps(s, blocks, width, height, tile_w, tile_h).0.commands,
            n,
        ) == upload_count(s.commands, n),
{
    broadcast use lemma_count_push;

    reveal(scatter_blocks_persistent_steps);
}

proof fn lemma_gab_smooth_persistent(
    s: Recording,
    plane: GpuPlane,
    w_center: Float32,
    w1: Float32,
    w2: Float32,
    n: int,
)
    ensures
        upload_count(
            gab_smooth_persistent_steps(s, plane, w_center, w1, w2).0.commands,
            n,
        ) == upload_count(s.commands, n),
{
    broadcast use lemma_count_push;

    reveal(gab_smooth_persistent_steps);
}

proof fn lemma_upload_inv_sigma(
    s: Recording,
    inv_sigma: Seq<Float32>,
    n: int,
)
    requires
        inv_sigma.len() != n,
    ensures
        upload_count(
            upload_inv_sigma_steps(s, inv_sigma).0.commands,
            n,
        ) == upload_count(s.commands, n),
{
    broadcast use lemma_count_push;

    reveal(upload_inv_sigma_steps);
}

proof fn lemma_pad_plane_persistent(
    s: Recording,
    plane: GpuPlane,
    pad: u32,
    n: int,
)
    ensures
        upload_count(
            pad_plane_persistent_steps(s, plane, pad).0.commands,
            n,
        ) == upload_count(s.commands, n),
{
    broadcast use lemma_count_push;

    reveal(pad_plane_persistent_steps);
}

proof fn lemma_epf_step1_persistent(
    s: Recording,
    in_x: GpuPlane,
    in_y: GpuPlane,
    in_b: GpuPlane,
    inv_sigma: Handle,
    width: u32,
    height: u32,
    xsize_blocks: u32,
    ysize_blocks: u32,
    pad: u32,
    sigma_scale: Float32,
    border_sigma_mul: Float32,
    n: int,
)
    ensures
        upload_count(
            epf_step1_persistent_steps(
                s,
                in_x,
                in_y,
                in_b,
                inv_sigma,
                width,
                height,
                xsize_blocks,
                ysize_blocks,
                pad,
                sigma_scale,
                border_sigma_mul,
            ).0.commands,
            n,
        ) == upload_count(s.commands, n),
{
    broadcast use lemma_count_push;

    reveal(epf_step1_persistent_steps);
}

proof fn lemma_epf_step2_persistent(
    s: Recording,
    in_x: GpuPlane,
    in_y: GpuPlane,
    in_b: GpuPlane,
    inv_sigma: Handle,
    width: u32,
    height: u32,
    xsize_blocks: u32,
    ysize_blocks: u32,
    pad: u32,
    sigma_scale: Float32,
    border_sigma_mul: Float32,
    n: int,
)
    ensures
        upload_count(
            epf_step2_persistent_steps(
                s,
                in_x,
                in_y,
                in_b,
                inv_sigma,
                width,
                height,
                xsize_blocks,
                ysize_blocks,
                pad,
                sigma_scale,
                border_sigma_mul,
            ).0.commands,
            n,
        ) == upload_count(s.commands, n),
{
    broadcast use lemma_count_push;

    reveal(epf_step2_persistent_steps);
}

proof fn lemma_xyb_to_linear_rgb_planar_persistent(
    s: Recording,
    x: GpuPlane,
    y: GpuPlane,
    b: GpuPlane,
    n: int,
)
    ensures
        upload_count(
            xyb_to_linear_rgb_planar_persistent_steps(s, x, y, b).0.commands,
            n,
        ) == upload_count(s.commands, n),
{
    broadcast use lemma_count_push;

    reveal(xyb_to_linear_rgb_planar_persistent_steps);
}

proof fn lemma_upload_plane(s: Recording, data: Seq<Float32>, width: u32, height: u32, n: int)
    requires
        data.len() == n,
    ensures
        upload_count(upload_plane_steps(s, data, width, height).0.commands, n) == upload_count(
            s.commands,
            n,
        ) + 1,
{
    broadcast use lemma_count_push;

    reveal(upload_plane_steps);
}

proof fn lemma_pad3(s: Recording, x: GpuPlane, y: GpuPlane, b: GpuPlane, pad: u32, n: int)
    ensures
        upload_count(pad_plane_3ch_steps(s, x, y, b, pad).0.commands, n) == upload_count(
            s.commands,
            n,
        ),
{
    reveal(pad_plane_3ch_steps);
    let s1 = pad_plane_persistent_steps(s, x, pad).0;
    let s2 = pad_plane_persistent_steps(s1, y, pad).0;
    lemma_pad_plane_persistent(s, x, pad, n);
    lemma_pad_plane_persistent(s1, y, pad, n);
    lemma_pad_plane_persistent(s2, b, pad, n);
}

proof fn lemma_analysis(
    s0: Recording,
    le: LossyEncoder,
    r: GpuPlane,
    g: GpuPlane,
    b: GpuPlane,
    gaborish: bool,
    n: int,
)
    ensures
        upload_count(analysis_steps(s0, le, r, g, b, gaborish).0.commands, n) == upload_count(
            s0.commands,
            n,
        ),
{
    reveal(analysis_steps);
    reveal(sharpened_steps);
    let (s1, (xx, xy, xb)) = xyb_from_linear_rgb_persistent_steps(s0, r, g, b);
    lemma_xyb_from_linear_rgb_persistent(s0, r, g, b, n);
    let w = le.weights;
    let t1 = gaborish_5x5_persistent_steps(s1, xx, w).0;
    let t2 = gaborish_5x5_persistent_steps(t1, xy, w).0;
    lemma_gaborish_5x5_persistent(s1, xx, w, n);
    lemma_gaborish_5x5_persistent(t1, xy, w, n);
    lemma_gaborish_5x5_persistent(t2, xb, w, n);
    let (s4, (px, py, pb)) = sharpened_steps(s1, le, (xx, xy, xb), gaborish);
    let (s5, bx) = gather_blocks_persistent_steps(s4, px, 8, 8);
    let (s6, by) = gather_blocks_persistent_steps(s5, py, 8, 8);
    let (s7, bb) = gather_blocks_persistent_steps(s6, pb, 8, 8);
    lemma_gather_blocks_persistent(s4, px, 8, 8, n);
    lemma_gather_blocks_persistent(s5, py, 8, 8, n);
    lemma_gather_blocks_persistent(s6, pb, 8, 8, n);
    let s8 = dct_8x8_wide_persistent_steps(s7, bx).0;
    let s9 = dct_8x8_wide_persistent_steps(s8, by).0;
    lemma_dct_8x8_wide_persistent(s7, bx, n);
    lemma_dct_8x8_wide_persistent(s8, by, n);
    lemma_dct_8x8_wide_persistent(s9, bb, n);
}

proof fn lemma_synthesis(s0: Recording, le: LossyEncoder, c: Blocks, qac: Seq<Float32>, n: int)
    requires
        qac.len() != n,
        le.num_blocks != n,
        n != 4,
    ensures
        upload_count(synthesis_steps(s0, le, c, qac).0.commands, n) == upload_count(s0.commands, n),
{
    reveal(synthesis_steps);
    let (s1, qx) = quantize_dct8_persistent_broadcast_w_steps(
        s0,
        c.0,
        le.weights_x,
        qac,
        le.thresholds_x@,
    );
    let (s2, qy) = quantize_dct8_persistent_broadcast_w_steps(
        s1,
        c.1,
        le.weights_y,
        qac,
        le.thresholds_y@,
    );
    let (s3, qb) = quantize_dct8_persistent_broadcast_w_steps(
        s2,
        c.2,
        le.weights_b,
        qac,
        le.thresholds_b@,
    );
    lemma_quantize_dct8_persistent_broadcast_w(s0, c.0, le.weights_x, qac, le.thresholds_x@, n);
    lemma_quantize_dct8_persistent_broadcast_w(s1, c.1, le.weights_y, qac, le.thresholds_y@, n);
    lemma_quantize_dct8_persistent_broadcast_w(s2, c.2, le.weights_b, qac, le.thresholds_b@, n);
    let z = crate::pipeline::zeros(le.num_blocks as nat);
    let (s4, (dx, dy, db)) = dequant_dct8_persistent_broadcast_w_steps(
        s3,
        qx,
        qy,
        qb,
        le.weights_x,
        le.weights_y,
        le.weights_b,
        qac,
        qac,
        qac,
        z,
        z,
    );
    lemma_dequant_dct8_persistent_broadcast_w(
        s3,
        qx,
        qy,
        qb,
        le.weights_x,
        le.weights_y,
        le.weights_b,
        qac,
        qac,
        qac,
        z,
        z,
        n,
    );
    let s5 = restore_dc_persistent_steps(s4, c.0, dx);
    let s6 = restore_dc_persistent_steps(s5, c.1, dy);
    let s7 = restore_dc_persistent_steps(s6, c.2, db);
    lemma_restore_dc_persistent(s4, c.0, dx, n);
    lemma_restore_dc_persistent(s5, c.1, dy, n);
    lemma_restore_dc_persistent(s6, c.2, db, n);
    let (s8, rx) = idct_8x8_wide_persistent_steps(s7, dx);
    let (s9, ry) = idct_8x8_wide_persistent_steps(s8, dy);
    let (s10, rb) = idct_8x8_wide_persistent_steps(s9, db);
    lemma_idct_8x8_wide_persistent(s7, dx, n);
    lemma_idct_8x8_wide_persistent(s8, dy, n);
    lemma_idct_8x8_wide_persistent(s9, db, n);
    let w = le.padded_width;
    let h = le.padded_height;
    let s11 = scatter_blocks_persistent_steps(s10, rx, w, h, 8, 8).0;
    let s12 = scatter_blocks_persistent_steps(s11, ry, w, h, 8, 8).0;
    lemma_scatter_blocks_persistent(s10, rx, w, h, 8, 8, n);
    lemma_scatter_blocks_persistent(s11, ry, w, h, 8, 8, n);
    lemma_scatter_blocks_persistent(s12, rb, w, h, 8, 8, n);
}

proof fn lemma_smoothed(s0: Recording, p: Planes, f: FilterParameters, smooth: bool, n: int)
    ensures
        upload_count(smoothed_steps(s0, p, f, smooth).0.commands, n) == upload_count(
            s0.commands,
            n,
        ),
{
    reveal(smoothed_steps);
    let s1 = gab_smooth_persistent_steps(s0, p.0, f.gab_center, f.gab_1, f.gab_2).0;
    let s2 = gab_smooth_persistent_steps(s1, p.1, f.gab_center, f.gab_1, f.gab_2).0;
    lemma_gab_smooth_persistent(s0, p.0, f.gab_center, f.gab_1, f.gab_2, n);
    lemma_gab_smooth_persistent(s1, p.1, f.gab_center, f.gab_1, f.gab_2, n);
    lemma_gab_smooth_persistent(s2, p.2, f.gab_center, f.gab_1, f.gab_2, n);
}

proof fn lemma_restoration(
    s0: Recording,
    le: LossyEncoder,
    p: Planes,
    f: FilterParameters,
    inv_sigma: Seq<Float32>,
    n: int,
)
    requires
        inv_sigma.len() != n,
    ensures
        upload_count(restoration_steps(s0, le, p, f, inv_sigma).0.commands, n) == upload_count(
            s0.commands,
            n,
        ),
{
    reveal(restoration_steps);
    let w = le.padded_width;
    let h = le.padded_height;
    let scale = crate::quality::float(crate::pipeline::EPF_SIGMA_SCALE);
    let scale2 = crate::float::product(f.epf_pass2_sigma_scale, scale);
    let m = f.epf_border_sad_mul;
    let (s1, sigma) = upload_inv_sigma_steps(s0, inv_sigma);
    let (s2, p1) = pad_plane_3ch_steps(s1, p.0, p.1, p.2, 2);
    let (s3, e1) = epf_step1_persistent_steps(
        s2,
        p1.0,
        p1.1,
        p1.2,
        sigma,
        w,
        h,
        w / 8,
        h / 8,
        2,
        scale,
        m,
    );
    let (s4, p2) = pad_plane_3ch_steps(s3, e1.0, e1.1, e1.2, 1);
    let (s5, e2) = epf_step2_persistent_steps(
        s4,
        p2.0,
        p2.1,
        p2.2,
        sigma,
        w,
        h,
        w / 8,
        h / 8,
        1,
        scale2,
        m,
    );
    lemma_upload_inv_sigma(s0, inv_sigma, n);
    lemma_pad3(s1, p.0, p.1, p.2, 2, n);
    lemma_epf_step1_persistent(
        s2,
        p1.0,
        p1.1,
        p1.2,
        sigma,
        w,
        h,
        w / 8,
        h / 8,
        2,
        scale,
        m,
        n,
    );
    lemma_pad3(s3, e1.0, e1.1, e1.2, 1, n);
    lemma_epf_step2_persistent(
        s4,
        p2.0,
        p2.1,
        p2.2,
        sigma,
        w,
        h,
        w / 8,
        h / 8,
        1,
        scale2,
        m,
        n,
    );
    lemma_xyb_to_linear_rgb_planar_persistent(s5, e2.0, e2.1, e2.2, n);
}

proof fn lemma_pipeline(
    s0: Recording,
    le: LossyEncoder,
    r: GpuPlane,
    g: GpuPlane,
    b: GpuPlane,
    qac: Seq<Float32>,
    f: FilterParameters,
    inv_sigma: Seq<Float32>,
    n: int,
)
    requires
        qac.len() != n,
        inv_sigma.len() != n,
        le.num_blocks != n,
        n != 4,
    ensures
        upload_count(pipeline_steps(s0, le, r, g, b, qac, f, inv_sigma).0.commands, n)
            == upload_count(s0.commands, n),
{
    broadcast use lemma_count_push;

    reveal(pipeline_steps);
    let gaborish = crate::pipeline::uses_gaborish(crate::pipeline::derived_distance(qac));
    let (s1, c) = analysis_steps(s0, le, r, g, b, gaborish);
    let (s2, p) = synthesis_steps(s1, le, c, qac);
    let (s3, q) = smoothed_steps(s2, p, f, gaborish);
    lemma_analysis(s0, le, r, g, b, gaborish, n);
    lemma_synthesis(s1, le, c, qac, n);
    lemma_smoothed(s2, p, f, gaborish, n);
    lemma_restoration(s3, le, q, f, inv_sigma, n);
}

proof fn lemma_pipelines(
    s0: Recording,
    le: LossyEncoder,
    p: Planes,
    qacs: Seq<Seq<Float32>>,
    f: FilterParameters,
    inv_sigmas: Seq<Seq<Float32>>,
    k: int,
    n: int,
)
    requires
        0 <= k <= qacs.len(),
        qacs.len() == inv_sigmas.len(),
        forall|i: int| 0 <= i < qacs.len() ==> (#[trigger] qacs[i]).len() != n,
        forall|i: int| 0 <= i < qacs.len() ==> (#[trigger] inv_sigmas[i]).len() != n,
        le.num_blocks != n,
        n != 4,
    ensures
        upload_count(pipelines_steps(s0, le, p, qacs, f, inv_sigmas, k).0.commands, n)
            == upload_count(s0.commands, n),
    decreases k,
{
    if k > 0 {
        lemma_pipelines(s0, le, p, qacs, f, inv_sigmas, k - 1, n);
        let s1 = pipelines_steps(s0, le, p, qacs, f, inv_sigmas, k - 1).0;
        lemma_pipeline(s1, le, p.0, p.1, p.2, qacs[k - 1], f, inv_sigmas[k - 1], n);
    }
}

/// However many settings an image is encoded at, exactly three planes of its
/// padded size are uploaded.
pub proof fn law_batch_uploads_once(
    s0: Recording,
    le: LossyEncoder,
    image: Image,
    qacs: Seq<Seq<Float32>>,
    f: FilterParameters,
    inv_sigmas: Seq<Seq<Float32>>,
)
    requires
        le.wf(),
        qacs.len() == inv_sigmas.len(),
        forall|i: int| 0 <= i < qacs.len() ==> (#[trigger] qacs[i]).len() == le.num_blocks,
        forall|i: int| 0 <= i < qacs.len() ==> (#[trigger] inv_sigmas[i]).len() == le.num_blocks,
    ensures
        ({
            let n = le.padded_width * le.padded_height;
            upload_count(encode_many_steps(s0, le, image, qacs, f, inv_sigmas).0.commands, n)
                == upload_count(s0.commands, n) + 3
        }),
{
    let w = le.padded_width;
    let h = le.padded_height;
    let n = w * h;
    lemma_plane_is_larger(le);
    reveal(upload_image_steps);
    let (s1, r) = upload_plane_steps(s0, padded_plane(le, image.0), w, h);
    let (s2, g) = upload_plane_steps(s1, padded_plane(le, image.1), w, h);
    let (s3, b) = upload_plane_steps(s2, padded_plane(le, image.2), w, h);
    lemma_upload_plane(s0, padded_plane(le, image.0), w, h, n);
    lemma_upload_plane(s1, padded_plane(le, image.1), w, h, n);
    lemma_upload_plane(s2, padded_plane(le, image.2), w, h, n);
    lemma_pipelines(s3, le, (r, g, b), qacs, f, inv_sigmas, qacs.len() as int, n);
}

/// A padded plane has more pixels than it has blocks, and more than four.
proof fn lemma_plane_is_larger(le: LossyEncoder)
    requires
        le.wf(),
    ensures
        le.padded_width * le.padded_height > le.num_blocks,
        le.padded_width * le.padded_height > 4,
{
    let a = (le.padded_width / 8) as int;
    let b = (le.padded_height / 8) as int;
    assert(le.padded_width == 8 * a && le.padded_height == 8 * b);
    assert((8 * a) * (8 * b) == 64 * (a * b)) by (nonlinear_arith);
    assert(a * b >= 4) by (nonlinear_arith)
        requires
            a >= 2,
            b >= 2,
    ;
}

/// A field that holds the same scale everywhere encodes an image just as that
/// scale does.
pub proof fn law_uniform_field_is_the_scale(
    s0: Recording,
    le: LossyEncoder,
    image: Image,
    aq_field: Seq<Float32>,
    qac: Float32,
    f: FilterParameters,
    inv_sigma: Seq<Float32>,
)
    requires
        aq_field.len() == le.num_blocks,
        forall|i: int| 0 <= i < aq_field.len() ==> #[trigger] aq_field[i] == qac,
    ensures
        encode_steps(s0, le, image, aq_field, f, inv_sigma) == encode_steps(
            s0,
            le,
            image,
            uniform(qac, le.num_blocks as nat),
            f,
            inv_sigma,
        ),
{
    assert(aq_field =~= uniform(qac, le.num_blocks as nat));
}

/// A batch runs one pipeline after the other over the same planes, each with
/// its own scales, in the order of the settings.
pub proof fn law_batch_runs_each_setting(
    s0: Recording,
    le: LossyEncoder,
    p: Planes,
    qacs: Seq<Seq<Float32>>,
    f: FilterParameters,
    inv_sigmas: Seq<Seq<Float32>>,
    n: int,
    k: int,
)
    requires
        0 <= k < n,
    ensures
        pipelines_steps(s0, le, p, qacs, f, inv_sigmas, n).1.len() == n,
        pipelines_steps(s0, le, p, qacs, f, inv_sigmas, n).1[k] == pipeline_steps(
            pipelines_steps(s0, le, p, qacs, f, inv_sigmas, k).0,
            le,
            p.0,
            p.1,
            p.2,
            qacs[k],
            f,
            inv_sigmas[k],
        ).1,
    decreases n,
{
    reveal_with_fuel(pipelines_steps, 2);
    if k < n - 1 {
        law_batch_runs_each_setting(s0, le, p, qacs, f, inv_sigmas, n - 1, k);
    } else if n > 1 {
        law_batch_runs_each_setting(s0, le, p, qacs, f, inv_sigmas, n - 1, 0);
    }
}

} // verus!
